//! The facts that EFMI conflict analysis reads out of a parsed INI: its
//! namespace, the hashes its texture and shader overrides match, and the
//! details shown as evidence.
use vstd::prelude::*;
use crate::ini_parse::{SpecSection, IniSection};
use crate::order::{
    lemma_sorted_of, lemma_strictly_sorted_by, lex_lt, lex_order, sorted_insert, sorted_of,
    strictly_sorted, views,
};
use crate::path_safety::{dot, dot_dot, segments, split_segments, storage_chars, storage_form};
use crate::text::{
    chars_eq, chars_eq_ic, chars_starts_with, eq_ic, is_whitespace, is_ws, lower_chars, lower_seq,
    slice_subrange, slice_to_vec, starts_with, to_chars, trim, trim_chars, is_ascii_hex,
};

verus! {

// ---------------------------------------------------------------------------
// Trimming by a set of characters
// ---------------------------------------------------------------------------
pub open spec fn lead_in(s: Seq<char>, set: Seq<char>) -> nat
    decreases s.len(),
{
    if s.len() > 0 && set.contains(s[0]) {
        1 + lead_in(s.drop_first(), set)
    } else {
        0
    }
}

pub open spec fn trail_in(s: Seq<char>, set: Seq<char>) -> nat
    decreases s.len(),
{
    if s.len() > 0 && set.contains(s.last()) {
        1 + trail_in(s.drop_last(), set)
    } else {
        0
    }
}

/// `str::trim_matches` with a set of characters: removes every leading and
/// trailing character that belongs to `set`.
pub open spec fn trim_set(s: Seq<char>, set: Seq<char>) -> Seq<char> {
    let t = s.skip(lead_in(s, set) as int);
    t.take(t.len() - trail_in(t, set))
}

fn in_set(c: char, set: &[char]) -> (b: bool)
    ensures
        b == set@.contains(c),
{
    let mut i: usize = 0;
    while i < set.len()
        invariant
            i <= set.len(),
            forall|j: int| 0 <= j < i ==> set@[j] != c,
        decreases set.len() - i,
    {
        if set[i] == c {
            proof {
                assert(set@[i as int] == c);
            }
            return true;
        }
        i = i + 1;
    }
    false
}

pub fn trim_set_chars(s: &[char], set: &[char]) -> (r: Vec<char>)
    ensures
        r@ == trim_set(s@, set@),
{
    let mut a: usize = 0;
    proof {
        assert(s@.skip(0) =~= s@);
    }
    while a < s.len() && in_set(s[a], set)
        invariant
            a <= s.len(),
            lead_in(s@, set@) == a + lead_in(s@.skip(a as int), set@),
        decreases s.len() - a,
    {
        proof {
            assert(s@.skip(a as int)[0] == s@[a as int]);
            assert(s@.skip(a as int).drop_first() =~= s@.skip(a + 1));
        }
        a = a + 1;
    }
    proof {
        if a < s.len() {
            assert(s@.skip(a as int)[0] == s@[a as int]);
        }
    }
    let t = slice_subrange(s, a, s.len());
    proof {
        assert(t@ =~= s@.skip(a as int));
    }
    let mut n: usize = 0;
    proof {
        assert(t@.take(t@.len() as int) =~= t@);
    }
    while n < t.len() && in_set(t[t.len() - 1 - n], set)
        invariant
            n <= t.len(),
            trail_in(t@, set@) == n + trail_in(t@.take(t.len() - n), set@),
        decreases t.len() - n,
    {
        proof {
            let u = t@.take(t.len() - n);
            assert(u.last() == t@[t.len() - 1 - n]);
            assert(u.drop_last() =~= t@.take(t.len() - n - 1));
        }
        n = n + 1;
    }
    proof {
        if n < t.len() {
            assert(t@.take(t.len() - n).last() == t@[t.len() - 1 - n]);
        }
    }
    slice_to_vec(slice_subrange(t, 0, t.len() - n))
}

// ---------------------------------------------------------------------------
// Hashes and namespaces
// ---------------------------------------------------------------------------
/// Length of the leading run of non-whitespace characters.
pub open spec fn word_len(s: Seq<char>) -> nat
    decreases s.len(),
{
    if s.len() == 0 || is_ws(s[0]) {
        0
    } else {
        1 + word_len(s.drop_first())
    }
}

proof fn lemma_word_len_bound(s: Seq<char>)
    ensures
        word_len(s) <= s.len(),
    decreases s.len(),
{
    if s.len() > 0 && !is_ws(s[0]) {
        lemma_word_len_bound(s.drop_first());
    }
}

/// `split_whitespace().next()`: the first whitespace-separated word.
pub open spec fn first_word(s: Seq<char>) -> Option<Seq<char>> {
    let rest = crate::text::trim_start(s);
    if rest.len() == 0 {
        None
    } else {
        Some(rest.take(word_len(rest) as int))
    }
}

pub open spec fn hash_quote_set() -> Seq<char> {
    seq!['"', '\'', ',']
}

/// Drops a leading `0x` or `0X`.
pub open spec fn strip_hex_prefix(t: Seq<char>) -> Seq<char> {
    if t.len() >= 2 && t[0] == '0' && (t[1] == 'x' || t[1] == 'X') {
        t.skip(2)
    } else {
        t
    }
}

/// The hash an override matches: the first word of the value without quotes
/// or commas around it and without a `0x` prefix, kept when it is 8 to 64
/// hexadecimal digits, in lower case.
pub open spec fn spec_normalize_hash(value: Seq<char>) -> Option<Seq<char>> {
    match first_word(value) {
        None => None,
        Some(w) => {
            let t = strip_hex_prefix(trim_set(w, hash_quote_set()));
            if 8 <= t.len() <= 64 && forall|i: int| 0 <= i < t.len() ==> is_ascii_hex(#[trigger] t[i]) {
                Some(lower_seq(t))
            } else {
                None
            }
        },
    }
}

fn first_word_chars(s: &[char]) -> (r: Option<Vec<char>>)
    ensures
        r matches Some(w) ==> first_word(s@) == Some(w@),
        r is None ==> first_word(s@) is None,
{
    let rest = crate::text::trim_start_chars(s);
    if rest.len() == 0 {
        return None;
    }
    let mut n: usize = 0;
    proof {
        assert(rest@.skip(0) =~= rest@);
        lemma_word_len_bound(rest@);
    }
    while n < rest.len() && !is_whitespace(rest[n])
        invariant
            n <= rest.len(),
            word_len(rest@) == n + word_len(rest@.skip(n as int)),
        decreases rest.len() - n,
    {
        proof {
            assert(rest@.skip(n as int)[0] == rest@[n as int]);
            assert(rest@.skip(n as int).drop_first() =~= rest@.skip(n + 1));
        }
        n = n + 1;
    }
    proof {
        if n < rest.len() {
            assert(rest@.skip(n as int)[0] == rest@[n as int]);
        }
    }
    Some(slice_to_vec(slice_subrange(rest.as_slice(), 0, n)))
}

fn hash_quotes() -> (v: Vec<char>)
    ensures
        v@ == hash_quote_set(),
{
    let mut v = Vec::new();
    v.push('"');
    v.push('\'');
    v.push(',');
    proof {
        assert(v@ =~= hash_quote_set());
    }
    v
}

fn is_hex_digit(c: char) -> (b: bool)
    ensures
        b == is_ascii_hex(c),
{
    ('0' <= c && c <= '9') || ('a' <= c && c <= 'f') || ('A' <= c && c <= 'F')
}

/// Normalizes the value of a `hash =` assignment.
pub fn normalize_hash(value: &[char]) -> (r: Option<Vec<char>>)
    ensures
        r matches Some(h) ==> spec_normalize_hash(value@) == Some(h@),
        r is None ==> spec_normalize_hash(value@) is None,
{
    let w = match first_word_chars(value) {
        Some(w) => w,
        None => return None,
    };
    let quotes = hash_quotes();
    let t0 = trim_set_chars(w.as_slice(), quotes.as_slice());
    let t = if t0.len() >= 2 && t0[0] == '0' && (t0[1] == 'x' || t0[1] == 'X') {
        slice_to_vec(slice_subrange(t0.as_slice(), 2, t0.len()))
    } else {
        t0
    };
    proof {
        assert(t@ == strip_hex_prefix(trim_set(w@, hash_quote_set())));
    }
    if t.len() < 8 || t.len() > 64 {
        return None;
    }
    let mut i: usize = 0;
    while i < t.len()
        invariant
            i <= t.len(),
            8 <= t.len() <= 64,
            first_word(value@) == Some(w@),
            t@ == strip_hex_prefix(trim_set(w@, hash_quote_set())),
            forall|j: int| 0 <= j < i ==> is_ascii_hex(#[trigger] t@[j]),
        decreases t.len() - i,
    {
        if !is_hex_digit(t[i]) {
            proof {
                assert(!is_ascii_hex(t@[i as int]));
            }
            return None;
        }
        i = i + 1;
    }
    Some(lower_chars(t.as_slice()))
}

/// `/` becomes `\`.
pub open spec fn backslash_form(s: Seq<char>) -> Seq<char> {
    Seq::new(s.len(), |i: int| if s[i] == '/' { '\\' } else { s[i] })
}

/// A namespace compared across mods: trimmed, unquoted, with `\` as the only
/// separator, no leading or trailing separator, in ASCII lower case.
pub open spec fn spec_normalize_namespace(value: Seq<char>) -> Seq<char> {
    lower_seq(trim_set(backslash_form(trim_set(trim(value), seq!['"'])), seq!['\\']))
}

pub fn normalize_namespace(value: &[char]) -> (r: Vec<char>)
    ensures
        r@ == spec_normalize_namespace(value@),
{
    let t = trim_chars(value);
    let mut quote = Vec::new();
    quote.push('"');
    let u = trim_set_chars(t.as_slice(), quote.as_slice());
    let mut b: Vec<char> = Vec::new();
    let mut i: usize = 0;
    while i < u.len()
        invariant
            i <= u.len(),
            b@ =~= backslash_form(u@.take(i as int)),
        decreases u.len() - i,
    {
        let c = u[i];
        b.push(if c == '/' { '\\' } else { c });
        i = i + 1;
    }
    proof {
        assert(u@.take(u@.len() as int) =~= u@);
        assert(quote@ =~= seq!['"']);
    }
    let mut bs = Vec::new();
    bs.push('\\');
    proof {
        assert(bs@ =~= seq!['\\']);
    }
    let v = trim_set_chars(b.as_slice(), bs.as_slice());
    lower_chars(v.as_slice())
}

// ---------------------------------------------------------------------------
// Override sections
// ---------------------------------------------------------------------------
/// The two kinds of override section whose hashes can collide.
#[derive(Debug, Clone, Copy, PartialEq, Eq)]
pub enum OverrideKind {
    Texture,
    Shader,
}

pub open spec fn texture_override_word() -> Seq<char> {
    seq!['t', 'e', 'x', 't', 'u', 'r', 'e', 'o', 'v', 'e', 'r', 'r', 'i', 'd', 'e']
}

pub open spec fn shader_override_word() -> Seq<char> {
    seq!['s', 'h', 'a', 'd', 'e', 'r', 'o', 'v', 'e', 'r', 'r', 'i', 'd', 'e']
}

/// Sections named `TextureOverride…` or `ShaderOverride…` (any case).
pub open spec fn spec_override_kind(name: Seq<char>) -> Option<OverrideKind> {
    let n = lower_seq(name);
    if starts_with(n, texture_override_word()) {
        Some(OverrideKind::Texture)
    } else if starts_with(n, shader_override_word()) {
        Some(OverrideKind::Shader)
    } else {
        None
    }
}

fn word_chars(w: &str) -> (v: Vec<char>)
    ensures
        v@ == w@,
{
    to_chars(w)
}

fn texture_word() -> (v: Vec<char>)
    ensures
        v@ == texture_override_word(),
{
    let v = word_chars("textureoverride");
    proof {
        reveal_strlit("textureoverride");
        assert(v@ =~= texture_override_word());
    }
    v
}

fn shader_word() -> (v: Vec<char>)
    ensures
        v@ == shader_override_word(),
{
    let v = word_chars("shaderoverride");
    proof {
        reveal_strlit("shaderoverride");
        assert(v@ =~= shader_override_word());
    }
    v
}

pub fn override_kind(section_name: &[char]) -> (r: Option<OverrideKind>)
    ensures
        r == spec_override_kind(section_name@),
{
    let n = lower_chars(section_name);
    let tw = texture_word();
    if chars_starts_with(n.as_slice(), tw.as_slice()) {
        return Some(OverrideKind::Texture);
    }
    let sw = shader_word();
    if chars_starts_with(n.as_slice(), sw.as_slice()) {
        return Some(OverrideKind::Shader);
    }
    None
}

// ---------------------------------------------------------------------------
// File extension
// ---------------------------------------------------------------------------
/// The last segment that is neither empty nor `.`.
pub open spec fn last_name(segs: Seq<Seq<char>>) -> Option<Seq<char>>
    decreases segs.len(),
{
    if segs.len() == 0 {
        None
    } else if segs.last().len() == 0 || segs.last() == dot() {
        last_name(segs.drop_last())
    } else {
        Some(segs.last())
    }
}

/// `Path::file_name`: the last component when it is a name (not `..`).
pub open spec fn file_name(path: Seq<char>) -> Option<Seq<char>> {
    match last_name(split_segments(path)) {
        Some(n) => if n == dot_dot() {
            None
        } else {
            Some(n)
        },
        None => None,
    }
}

/// Index just past the last `.` of `s` (0 when there is none).
pub open spec fn after_last_dot(s: Seq<char>) -> nat
    decreases s.len(),
{
    if s.len() == 0 {
        0
    } else if s.last() == '.' {
        s.len()
    } else {
        after_last_dot(s.drop_last())
    }
}

pub proof fn lemma_after_last_dot(s: Seq<char>)
    ensures
        after_last_dot(s) <= s.len(),
        after_last_dot(s) > 0 ==> s[after_last_dot(s) - 1] == '.',
        forall|j: int| after_last_dot(s) <= j < s.len() ==> s[j] != '.',
    decreases s.len(),
{
    if s.len() > 0 && s.last() != '.' {
        lemma_after_last_dot(s.drop_last());
        assert forall|j: int| after_last_dot(s) <= j < s.len() implies s[j] != '.' by {
            if j < s.len() - 1 {
                assert(s[j] == s.drop_last()[j]);
            }
        }
        if after_last_dot(s) > 0 {
            assert(s[after_last_dot(s) - 1] == s.drop_last()[after_last_dot(s) - 1]);
        }
    }
}

/// `Path::extension` of a file name: what follows its last `.`, unless that
/// `.` is the first character.
pub open spec fn name_extension(name: Seq<char>) -> Option<Seq<char>> {
    let k = after_last_dot(name);
    if k <= 1 {
        None
    } else {
        Some(name.skip(k as int))
    }
}

/// `Path::extension`: the extension of the path's file name.
pub open spec fn path_extension(path: Seq<char>) -> Option<Seq<char>> {
    match file_name(path) {
        Some(n) => name_extension(n),
        None => None,
    }
}

pub fn path_extension_chars(path: &[char]) -> (r: Option<Vec<char>>)
    ensures
        r matches Some(e) ==> path_extension(path@) == Some(e@),
        r is None ==> path_extension(path@) is None,
{
    let name = match file_name_chars(path) {
        Some(n) => n,
        None => return None,
    };
    let k = last_dot_end(name.as_slice());
    proof {
        lemma_after_last_dot(name@);
    }
    if k <= 1 {
        return None;
    }
    let ext = slice_to_vec(slice_subrange(name.as_slice(), k, name.len()));
    proof {
        assert(ext@ =~= name@.skip(k as int));
    }
    Some(ext)
}

/// The path names a file with extension `ini` (any case).
pub open spec fn spec_has_ini_extension(path: Seq<char>) -> bool {
    match file_name(path) {
        Some(n) => match name_extension(n) {
            Some(e) => eq_ic(e, seq!['i', 'n', 'i']),
            None => false,
        },
        None => false,
    }
}

pub(crate) fn last_dot_end(s: &[char]) -> (k: usize)
    ensures
        k == after_last_dot(s@),
{
    let mut n = s.len();
    proof {
        assert(s@.take(n as int) =~= s@);
    }
    while n > 0 && s[n - 1] != '.'
        invariant
            n <= s.len(),
            after_last_dot(s@) == after_last_dot(s@.take(n as int)),
        decreases n,
    {
        proof {
            let t = s@.take(n as int);
            assert(t.drop_last() =~= s@.take(n - 1));
            assert(t.last() == s@[n - 1]);
            assert(t.len() > 0 && t.last() != '.');
            assert(after_last_dot(t) == after_last_dot(t.drop_last()));
        }
        n = n - 1;
    }
    proof {
        let t = s@.take(n as int);
        if n > 0 {
            assert(t.last() == s@[n - 1]);
            assert(after_last_dot(t) == t.len());
        } else {
            assert(after_last_dot(t) == 0);
        }
    }
    n
}

fn is_dot_chars(s: &[char]) -> (b: bool)
    ensures
        b == (s@ == dot()),
{
    let r = s.len() == 1 && s[0] == '.';
    proof {
        if r {
            assert(s@ =~= dot());
        }
        if s@ == dot() {
            assert(s@[0] == '.');
        }
    }
    r
}

fn is_dot_dot_chars(s: &[char]) -> (b: bool)
    ensures
        b == (s@ == dot_dot()),
{
    let r = s.len() == 2 && s[0] == '.' && s[1] == '.';
    proof {
        if r {
            assert(s@ =~= dot_dot());
        }
        if s@ == dot_dot() {
            assert(s@[0] == '.' && s@[1] == '.');
        }
    }
    r
}

/// `Path::file_name` on characters.
pub fn file_name_chars(path: &[char]) -> (r: Option<Vec<char>>)
    ensures
        r matches Some(n) ==> file_name(path@) == Some(n@),
        r is None ==> file_name(path@) is None,
{
    let segs = segments(path);
    let ghost ss = split_segments(path@);
    let mut n = segs.len();
    proof {
        assert(ss.take(n as int) =~= ss);
    }
    while n > 0 && (segs[n - 1].len() == 0 || is_dot_chars(segs[n - 1].as_slice()))
        invariant
            n <= segs@.len(),
            segs@.len() == ss.len(),
            ss == split_segments(path@),
            forall|j: int| 0 <= j < segs@.len() ==> #[trigger] segs@[j]@ == ss[j],
            last_name(ss) == last_name(ss.take(n as int)),
        decreases n,
    {
        proof {
            assert(ss.take(n as int).drop_last() =~= ss.take(n - 1));
            assert(ss.take(n as int).last() == ss[n - 1]);
        }
        n = n - 1;
    }
    if n == 0 {
        return None;
    }
    proof {
        assert(ss.take(n as int).last() == ss[n - 1]);
        assert(segs@[n - 1]@ == ss[n - 1]);
    }
    if is_dot_dot_chars(segs[n - 1].as_slice()) {
        None
    } else {
        Some(slice_to_vec(segs[n - 1].as_slice()))
    }
}

pub fn has_ini_extension(path: &[char]) -> (b: bool)
    ensures
        b == spec_has_ini_extension(path@),
{
    let name = match file_name_chars(path) {
        Some(n) => n,
        None => return false,
    };
    let k = last_dot_end(name.as_slice());
    proof {
        lemma_after_last_dot(name@);
    }
    if k <= 1 {
        return false;
    }
    let ext = slice_subrange(name.as_slice(), k, name.len());
    let mut ini = Vec::new();
    ini.push('i');
    ini.push('n');
    ini.push('i');
    proof {
        assert(ini@ =~= seq!['i', 'n', 'i']);
        assert(ext@ =~= name@.skip(k as int));
    }
    chars_eq_ic(ext, ini.as_slice())
}

// ---------------------------------------------------------------------------
// Resources referenced by an override
// ---------------------------------------------------------------------------
pub open spec fn filename_key() -> Seq<char> {
    seq!['f', 'i', 'l', 'e', 'n', 'a', 'm', 'e']
}

pub open spec fn resource_word() -> Seq<char> {
    seq!['r', 'e', 's', 'o', 'u', 'r', 'c', 'e']
}

/// A `filename =` value as stored: unquoted, with `/` separators.
pub open spec fn file_value(v: Seq<char>) -> Seq<char> {
    storage_form(trim_set(v, seq!['"']))
}

/// The files a section names through `filename =` assignments, in order.
pub open spec fn assigned_files(asg: Seq<(Seq<char>, Seq<char>)>) -> Seq<Seq<char>>
    decreases asg.len(),
{
    if asg.len() == 0 {
        Seq::empty()
    } else {
        let rest = assigned_files(asg.drop_last());
        if asg.last().0 == filename_key() {
            rest.push(file_value(asg.last().1))
        } else {
            rest
        }
    }
}

/// The resource table: for each `Resource…` section that names files, its
/// lower-case name and those files, in section order.
pub open spec fn resource_table(sections: Seq<SpecSection>) -> Seq<(Seq<char>, Seq<Seq<char>>)>
    decreases sections.len(),
{
    if sections.len() == 0 {
        Seq::empty()
    } else {
        let rest = resource_table(sections.drop_last());
        let s = sections.last();
        let files = assigned_files(s.assignments);
        if starts_with(lower_seq(s.name), resource_word()) && files.len() > 0 {
            rest.push((lower_seq(s.name), files))
        } else {
            rest
        }
    }
}

/// The files of the resource named `key`; a later section of the same name
/// replaces an earlier one.
pub open spec fn resource_lookup(table: Seq<(Seq<char>, Seq<Seq<char>>)>, key: Seq<char>) -> Seq<
    Seq<char>,
>
    decreases table.len(),
{
    if table.len() == 0 {
        Seq::empty()
    } else if table.last().0 == key {
        table.last().1
    } else {
        resource_lookup(table.drop_last(), key)
    }
}

/// Characters that separate the words of an assignment value.
pub open spec fn is_token_delim(c: char) -> bool {
    is_ws(c) || c == ',' || c == '(' || c == ')' || c == '='
}

/// The pieces of `s` between delimiters, empty ones included.
pub open spec fn split_tokens(s: Seq<char>) -> Seq<Seq<char>>
    decreases s.len(),
{
    if s.len() == 0 {
        seq![Seq::<char>::empty()]
    } else {
        let rest = split_tokens(s.drop_last());
        if is_token_delim(s.last()) {
            rest.push(Seq::<char>::empty())
        } else {
            rest.update(rest.len() - 1, rest.last().push(s.last()))
        }
    }
}

pub open spec fn token_trim_set() -> Seq<char> {
    seq!['"', '\'', '[', ']', '{', '}']
}

/// The resource a word refers to: without quotes or brackets around it, in
/// ASCII lower case.
pub open spec fn token_key(t: Seq<char>) -> Seq<char> {
    lower_seq(trim_set(t, token_trim_set()))
}

/// The files the words of one value refer to.
pub open spec fn token_files(tokens: Seq<Seq<char>>, table: Seq<(Seq<char>, Seq<Seq<char>>)>) -> Seq<
    Seq<char>,
>
    decreases tokens.len(),
{
    if tokens.len() == 0 {
        Seq::empty()
    } else {
        token_files(tokens.drop_last(), table) + resource_lookup(table, token_key(tokens.last()))
    }
}

/// The files the values of a section refer to.
pub open spec fn referenced_files(
    asg: Seq<(Seq<char>, Seq<char>)>,
    table: Seq<(Seq<char>, Seq<Seq<char>>)>,
) -> Seq<Seq<char>>
    decreases asg.len(),
{
    if asg.len() == 0 {
        Seq::empty()
    } else {
        referenced_files(asg.drop_last(), table) + token_files(split_tokens(asg.last().1), table)
    }
}

/// The value of the last assignment to `key`.
pub open spec fn last_value(asg: Seq<(Seq<char>, Seq<char>)>, key: Seq<char>) -> Option<Seq<char>>
    decreases asg.len(),
{
    if asg.len() == 0 {
        None
    } else if asg.last().0 == key {
        Some(asg.last().1)
    } else {
        last_value(asg.drop_last(), key)
    }
}

/// `parts` joined with `sep` between consecutive parts.
pub open spec fn join(parts: Seq<Seq<char>>, sep: Seq<char>) -> Seq<char>
    decreases parts.len(),
{
    if parts.len() == 0 {
        Seq::empty()
    } else if parts.len() == 1 {
        parts[0]
    } else {
        join(parts.drop_last(), sep) + sep + parts.last()
    }
}

pub open spec fn comma_sep() -> Seq<char> {
    seq![',', ' ']
}

pub open spec fn key_match_index_count() -> Seq<char> {
    "match_index_count"@
}

pub open spec fn key_match_priority() -> Seq<char> {
    "match_priority"@
}

pub open spec fn key_handling() -> Seq<char> {
    "handling"@
}

/// `key=value` for a key when the section assigns it.
pub open spec fn detail_for(asg: Seq<(Seq<char>, Seq<char>)>, key: Seq<char>) -> Seq<Seq<char>> {
    match last_value(asg, key) {
        Some(v) => seq![key + seq!['='] + v],
        None => Seq::empty(),
    }
}

/// The evidence details of an override section: the last values of
/// `match_index_count`, `match_priority` and `handling`, then the files its
/// values refer to (`files`, sorted and without duplicates), all joined by
/// `, ` behind a leading `, `; empty when there is nothing to say.
pub open spec fn details_text(asg: Seq<(Seq<char>, Seq<char>)>, files: Seq<Seq<char>>) -> Seq<char> {
    let fixed = detail_for(asg, key_match_index_count()) + detail_for(asg, key_match_priority())
        + detail_for(asg, key_handling());
    let items = if files.len() > 0 {
        fixed.push("resources="@ + join(files, comma_sep()))
    } else {
        fixed
    };
    if items.len() == 0 {
        Seq::empty()
    } else {
        comma_sep() + join(items, comma_sep())
    }
}

/// The evidence details of an override section, with the files it refers to
/// sorted and without duplicates.
pub open spec fn spec_override_details(
    asg: Seq<(Seq<char>, Seq<char>)>,
    table: Seq<(Seq<char>, Seq<Seq<char>>)>,
) -> Seq<char> {
    details_text(asg, sorted_of(referenced_files(asg, table).to_set(), lex_order()))
}

/// The executable resource table.
pub struct ResourceTable {
    pub entries: Vec<(Vec<char>, Vec<Vec<char>>)>,
}

impl ResourceTable {
    pub open spec fn spec(&self) -> Seq<(Seq<char>, Seq<Seq<char>>)> {
        self.entries@.map_values(|e: (Vec<char>, Vec<Vec<char>>)| (e.0@, views(e.1@)))
    }
}

fn lit(s: &str) -> (v: Vec<char>)
    ensures
        v@ == s@,
{
    to_chars(s)
}

fn files_of(asg: &Vec<(Vec<char>, Vec<char>)>) -> (r: Vec<Vec<char>>)
    ensures
        views(r@) == assigned_files(asg@.map_values(|p: (Vec<char>, Vec<char>)| (p.0@, p.1@))),
{
    let ghost a = asg@.map_values(|p: (Vec<char>, Vec<char>)| (p.0@, p.1@));
    let key = lit("filename");
    proof {
        reveal_strlit("filename");
        assert(key@ =~= filename_key());
    }
    let mut quote = Vec::new();
    quote.push('"');
    proof {
        assert(quote@ =~= seq!['"']);
    }
    let mut r: Vec<Vec<char>> = Vec::new();
    let mut i: usize = 0;
    proof {
        assert(a.take(0) =~= Seq::<(Seq<char>, Seq<char>)>::empty());
        assert(views(r@) =~= Seq::<Seq<char>>::empty());
    }
    while i < asg.len()
        invariant
            i <= asg@.len(),
            a == asg@.map_values(|p: (Vec<char>, Vec<char>)| (p.0@, p.1@)),
            key@ == filename_key(),
            quote@ == seq!['"'],
            views(r@) == assigned_files(a.take(i as int)),
        decreases asg@.len() - i,
    {
        proof {
            assert(a.take(i + 1).drop_last() =~= a.take(i as int));
            assert(a.take(i + 1).last() == a[i as int]);
        }
        if chars_eq(asg[i].0.as_slice(), key.as_slice()) {
            let t = trim_set_chars(asg[i].1.as_slice(), quote.as_slice());
            let v = storage_chars(t.as_slice());
            let ghost before = views(r@);
            r.push(v);
            proof {
                assert(views(r@) =~= before.push(v@));
            }
        }
        i = i + 1;
    }
    proof {
        assert(a.take(asg@.len() as int) =~= a);
    }
    r
}

/// Builds the resource table of a document's sections.
pub fn local_resource_files(sections: &Vec<IniSection>) -> (t: ResourceTable)
    ensures
        t.spec() == resource_table(sections@.map_values(|s: IniSection| s.spec())),
{
    let ghost ss = sections@.map_values(|s: IniSection| s.spec());
    let word = lit("resource");
    proof {
        reveal_strlit("resource");
        assert(word@ =~= resource_word());
    }
    let mut t = ResourceTable { entries: Vec::new() };
    let mut i: usize = 0;
    proof {
        assert(ss.take(0) =~= Seq::<SpecSection>::empty());
        assert(t.spec() =~= Seq::<(Seq<char>, Seq<Seq<char>>)>::empty());
    }
    while i < sections.len()
        invariant
            i <= sections@.len(),
            ss == sections@.map_values(|s: IniSection| s.spec()),
            word@ == resource_word(),
            t.spec() == resource_table(ss.take(i as int)),
        decreases sections@.len() - i,
    {
        proof {
            assert(ss.take(i + 1).drop_last() =~= ss.take(i as int));
            assert(ss.take(i + 1).last() == ss[i as int]);
        }
        let name = lower_chars(sections[i].name.as_slice());
        let files = files_of(&sections[i].assignments);
        if chars_starts_with(name.as_slice(), word.as_slice()) && files.len() > 0 {
            let ghost before = t.spec();
            t.entries.push((name, files));
            proof {
                assert(t.spec() =~= before.push((name@, views(files@))));
            }
        }
        i = i + 1;
    }
    proof {
        assert(ss.take(sections@.len() as int) =~= ss);
    }
    t
}

fn lookup_index(t: &ResourceTable, key: &[char]) -> (r: Option<usize>)
    ensures
        r matches Some(i) ==> i < t.entries@.len() && views(t.entries@[i as int].1@) == resource_lookup(
            t.spec(),
            key@,
        ),
        r is None ==> resource_lookup(t.spec(), key@).len() == 0,
{
    let ghost ts = t.spec();
    let mut n = t.entries.len();
    proof {
        assert(ts.take(n as int) =~= ts);
    }
    while n > 0
        invariant
            n <= t.entries@.len(),
            ts == t.spec(),
            resource_lookup(ts, key@) == resource_lookup(ts.take(n as int), key@),
        decreases n,
    {
        proof {
            assert(ts.take(n as int).drop_last() =~= ts.take(n - 1));
            assert(ts.take(n as int).last() == ts[n - 1]);
        }
        if chars_eq(t.entries[n - 1].0.as_slice(), key) {
            return Some(n - 1);
        }
        n = n - 1;
    }
    proof {
        assert(ts.take(0) =~= Seq::<(Seq<char>, Seq<Seq<char>>)>::empty());
    }
    None
}

fn is_token_delimiter(c: char) -> (b: bool)
    ensures
        b == is_token_delim(c),
{
    is_whitespace(c) || c == ',' || c == '(' || c == ')' || c == '='
}

fn split_token_chars(s: &[char]) -> (r: Vec<Vec<char>>)
    ensures
        r@.len() == split_tokens(s@).len(),
        forall|k: int| 0 <= k < r@.len() ==> #[trigger] r@[k]@ == split_tokens(s@)[k],
{
    let mut r: Vec<Vec<char>> = Vec::new();
    r.push(Vec::new());
    let mut i: usize = 0;
    proof {
        assert(s@.take(0) =~= Seq::<char>::empty());
    }
    while i < s.len()
        invariant
            i <= s.len(),
            r@.len() == split_tokens(s@.take(i as int)).len(),
            r@.len() >= 1,
            forall|k: int|
                0 <= k < r@.len() ==> #[trigger] r@[k]@ == split_tokens(s@.take(i as int))[k],
        decreases s.len() - i,
    {
        let d = s[i];
        proof {
            assert(s@.take(i + 1).drop_last() =~= s@.take(i as int));
            assert(s@.take(i + 1).last() == d);
        }
        if is_token_delimiter(d) {
            r.push(Vec::new());
        } else {
            let last = r.len() - 1;
            let mut seg = r.remove(last);
            seg.push(d);
            r.push(seg);
        }
        i = i + 1;
    }
    proof {
        assert(s@.take(s@.len() as int) =~= s@);
    }
    r
}

fn token_trim_chars() -> (v: Vec<char>)
    ensures
        v@ == token_trim_set(),
{
    let mut v = Vec::new();
    v.push('"');
    v.push('\'');
    v.push('[');
    v.push(']');
    v.push('{');
    v.push('}');
    proof {
        assert(v@ =~= token_trim_set());
    }
    v
}

/// The files referenced by a section's values, sorted and without
/// duplicates.
fn collect_referenced(
    asg: &Vec<(Vec<char>, Vec<char>)>,
    table: &ResourceTable,
) -> (r: Vec<Vec<char>>)
    ensures
        strictly_sorted(views(r@)),
        views(r@).to_set() == referenced_files(
            asg@.map_values(|p: (Vec<char>, Vec<char>)| (p.0@, p.1@)),
            table.spec(),
        ).to_set(),
{
    let ghost a = asg@.map_values(|p: (Vec<char>, Vec<char>)| (p.0@, p.1@));
    let ghost ts = table.spec();
    let trim_chars_set = token_trim_chars();
    let mut set: Vec<Vec<char>> = Vec::new();
    let ghost mut acc: Seq<Seq<char>> = Seq::empty();
    let mut i: usize = 0;
    proof {
        assert(a.take(0) =~= Seq::<(Seq<char>, Seq<char>)>::empty());
        assert(views(set@) =~= Seq::<Seq<char>>::empty());
        assert(views(set@).to_set() =~= acc.to_set());
    }
    while i < asg.len()
        invariant
            i <= asg@.len(),
            a == asg@.map_values(|p: (Vec<char>, Vec<char>)| (p.0@, p.1@)),
            ts == table.spec(),
            trim_chars_set@ == token_trim_set(),
            strictly_sorted(views(set@)),
            acc == referenced_files(a.take(i as int), ts),
            views(set@).to_set() == acc.to_set(),
        decreases asg@.len() - i,
    {
        let toks = split_token_chars(asg[i].1.as_slice());
        let ghost tk = split_tokens(a[i as int].1);
        let ghost base = acc;
        let mut j: usize = 0;
        proof {
            assert(tk.take(0) =~= Seq::<Seq<char>>::empty());
            assert(base + token_files(tk.take(0), ts) =~= acc);
        }
        while j < toks.len()
            invariant
                j <= toks@.len(),
                toks@.len() == tk.len(),
                forall|k: int| 0 <= k < toks@.len() ==> #[trigger] toks@[k]@ == tk[k],
                ts == table.spec(),
                trim_chars_set@ == token_trim_set(),
                strictly_sorted(views(set@)),
                acc == base + token_files(tk.take(j as int), ts),
                views(set@).to_set() == acc.to_set(),
            decreases toks@.len() - j,
        {
            let trimmed = trim_set_chars(toks[j].as_slice(), trim_chars_set.as_slice());
            let key = lower_chars(trimmed.as_slice());
            proof {
                assert(key@ == token_key(tk[j as int]));
                assert(tk.take(j + 1).drop_last() =~= tk.take(j as int));
                assert(tk.take(j + 1).last() == tk[j as int]);
            }
            let ghost before = acc;
            match lookup_index(table, key.as_slice()) {
                Some(idx) => {
                    let files = &table.entries[idx].1;
                    let ghost lf = views(files@);
                    let mut k: usize = 0;
                    proof {
                        assert(lf.take(0) =~= Seq::<Seq<char>>::empty());
                        assert(before + lf.take(0) =~= acc);
                    }
                    while k < files.len()
                        invariant
                            k <= files@.len(),
                            lf == views(files@),
                            strictly_sorted(views(set@)),
                            acc == before + lf.take(k as int),
                            views(set@).to_set() == acc.to_set(),
                        decreases files@.len() - k,
                    {
                        let f = slice_to_vec(files[k].as_slice());
                        let ghost prev = views(set@).to_set();
                        sorted_insert(&mut set, f);
                        proof {
                            assert(lf.take(k + 1) =~= lf.take(k as int).push(lf[k as int]));
                            assert(before + lf.take(k + 1) =~= (before + lf.take(k as int)).push(f@));
                            acc = before + lf.take(k + 1);
                            assert(acc.to_set() =~= prev.insert(f@)) by {
                                broadcast use vstd::seq_lib::group_seq_properties;
                            }
                        }
                        k = k + 1;
                    }
                    proof {
                        assert(lf.take(lf.len() as int) =~= lf);
                        assert(acc == base + token_files(tk.take(j + 1), ts)) by {
                            assert(token_files(tk.take(j + 1), ts) == token_files(tk.take(j as int), ts)
                                + resource_lookup(ts, token_key(tk[j as int])));
                            assert(base + token_files(tk.take(j + 1), ts) =~= before + lf);
                        }
                    }
                },
                None => {
                    proof {
                        assert(token_files(tk.take(j + 1), ts) == token_files(tk.take(j as int), ts)
                            + resource_lookup(ts, token_key(tk[j as int])));
                        assert(token_files(tk.take(j + 1), ts) =~= token_files(tk.take(j as int), ts));
                    }
                },
            }
            j = j + 1;
        }
        proof {
            assert(tk.take(tk.len() as int) =~= tk);
            assert(a.take(i + 1).drop_last() =~= a.take(i as int));
            assert(a.take(i + 1).last() == a[i as int]);
        }
        i = i + 1;
    }
    proof {
        assert(a.take(asg@.len() as int) =~= a);
    }
    set
}

/// Joins parts with a separator.
pub fn join_parts(parts: &Vec<Vec<char>>, sep: &[char]) -> (r: Vec<char>)
    ensures
        r@ == join(views(parts@), sep@),
{
    let ghost ps = views(parts@);
    let mut r: Vec<char> = Vec::new();
    let mut i: usize = 0;
    proof {
        assert(ps.take(0) =~= Seq::<Seq<char>>::empty());
    }
    while i < parts.len()
        invariant
            i <= parts@.len(),
            ps == views(parts@),
            r@ == join(ps.take(i as int), sep@),
        decreases parts@.len() - i,
    {
        let ghost before = r@;
        if i > 0 {
            r.extend_from_slice(sep);
        }
        r.extend_from_slice(parts[i].as_slice());
        proof {
            let t = ps.take(i + 1);
            assert(t.drop_last() =~= ps.take(i as int));
            assert(t.last() == ps[i as int]);
            if i == 0 {
                assert(t.len() == 1);
                assert(r@ =~= t[0]);
            } else {
                assert(r@ =~= before + sep@ + ps[i as int]);
            }
        }
        i = i + 1;
    }
    proof {
        assert(ps.take(parts@.len() as int) =~= ps);
    }
    r
}

fn last_value_of(asg: &Vec<(Vec<char>, Vec<char>)>, key: &[char]) -> (r: Option<Vec<char>>)
    ensures
        r matches Some(v) ==> last_value(
            asg@.map_values(|p: (Vec<char>, Vec<char>)| (p.0@, p.1@)),
            key@,
        ) == Some(v@),
        r is None ==> last_value(
            asg@.map_values(|p: (Vec<char>, Vec<char>)| (p.0@, p.1@)),
            key@,
        ) is None,
{
    let ghost a = asg@.map_values(|p: (Vec<char>, Vec<char>)| (p.0@, p.1@));
    let mut n = asg.len();
    proof {
        assert(a.take(n as int) =~= a);
    }
    while n > 0
        invariant
            n <= asg@.len(),
            a == asg@.map_values(|p: (Vec<char>, Vec<char>)| (p.0@, p.1@)),
            last_value(a, key@) == last_value(a.take(n as int), key@),
        decreases n,
    {
        proof {
            assert(a.take(n as int).drop_last() =~= a.take(n - 1));
            assert(a.take(n as int).last() == a[n - 1]);
        }
        if chars_eq(asg[n - 1].0.as_slice(), key) {
            return Some(slice_to_vec(asg[n - 1].1.as_slice()));
        }
        n = n - 1;
    }
    None
}

fn push_detail(items: &mut Vec<Vec<char>>, asg: &Vec<(Vec<char>, Vec<char>)>, key: &[char])
    ensures
        views(final(items)@) == views(old(items)@) + detail_for(
            asg@.map_values(|p: (Vec<char>, Vec<char>)| (p.0@, p.1@)),
            key@,
        ),
{
    match last_value_of(asg, key) {
        Some(v) => {
            let mut item = slice_to_vec(key);
            item.push('=');
            let ghost kv = item@;
            item.extend_from_slice(v.as_slice());
            let ghost before = views(items@);
            items.push(item);
            proof {
                assert(item@ =~= key@ + seq!['='] + v@);
                assert(views(items@) =~= before + seq![key@ + seq!['='] + v@]);
            }
        },
        None => {
            proof {
                assert(views(items@) =~= views(items@) + Seq::<Seq<char>>::empty());
            }
        },
    }
}

/// The evidence details of an override section (see `details_text`).
pub fn override_details(section: &IniSection, table: &ResourceTable) -> (r: Vec<char>)
    ensures
        r@ == spec_override_details(section.spec().assignments, table.spec()),
{
    let ghost a = section.spec().assignments;
    let mut items: Vec<Vec<char>> = Vec::new();
    let k1 = lit("match_index_count");
    let k2 = lit("match_priority");
    let k3 = lit("handling");
    proof {
        assert(views(items@) =~= Seq::<Seq<char>>::empty());
    }
    push_detail(&mut items, &section.assignments, k1.as_slice());
    push_detail(&mut items, &section.assignments, k2.as_slice());
    push_detail(&mut items, &section.assignments, k3.as_slice());
    let files = collect_referenced(&section.assignments, table);
    let sep = lit(", ");
    proof {
        reveal_strlit(", ");
        assert(sep@ =~= comma_sep());
    }
    let ghost fixed = views(items@);
    if files.len() > 0 {
        let mut item = lit("resources=");
        let joined = join_parts(&files, sep.as_slice());
        let ghost head = item@;
        item.extend_from_slice(joined.as_slice());
        let ghost it = item@;
        items.push(item);
        proof {
            assert(it =~= head + joined@);
            assert(views(items@) =~= fixed.push(it));
            assert(views(items@) =~= fixed.push("resources="@ + join(views(files@), comma_sep())));
        }
    }
    let result = if items.len() == 0 {
        Vec::new()
    } else {
        let mut out = slice_to_vec(sep.as_slice());
        let joined = join_parts(&items, sep.as_slice());
        out.extend_from_slice(joined.as_slice());
        out
    };
    proof {
        let fs = views(files@);
        lemma_strictly_sorted_by(fs);
        lemma_sorted_of(fs, lex_order());
        assert(fixed == detail_for(a, key_match_index_count()) + detail_for(a, key_match_priority())
            + detail_for(a, key_handling()));
        assert(result@ =~= details_text(a, fs));
    }
    result
}

} // verus!
