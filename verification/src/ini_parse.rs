//! Decoding and parsing of EFMI/3DMigoto INI text.
use vstd::prelude::*;
use crate::ids::{decimal, decimal_chars};
use crate::text::{
    from_chars, lower_chars, lower_seq, slice_subrange, slice_to_vec, to_chars, trim, trim_chars,
};

verus! {

// ---------------------------------------------------------------------------
// Decoding
// ---------------------------------------------------------------------------
/// What `String::from_utf8_lossy` yields: invalid sequences replaced by U+FFFD.
pub uninterp spec fn utf8_lossy(bytes: Seq<u8>) -> Seq<char>;

/// A leading (high) surrogate.
pub open spec fn is_lead_surrogate(u: u16) -> bool {
    0xD800 <= u && u <= 0xDBFF
}

/// A trailing (low) surrogate.
pub open spec fn is_trail_surrogate(u: u16) -> bool {
    0xDC00 <= u && u <= 0xDFFF
}

/// The character a surrogate pair encodes.
pub open spec fn surrogate_pair_char(lead: u16, trail: u16) -> char {
    (0x10000 + (lead - 0xD800) * 0x400 + (trail - 0xDC00)) as char
}

/// UTF-16 decoding, `None` when a surrogate is unpaired: a unit outside the
/// surrogate range is its own character, a leading surrogate followed by a
/// trailing one is a pair.
pub open spec fn utf16_decode(units: Seq<u16>) -> Option<Seq<char>>
    decreases units.len(),
{
    if units.len() == 0 {
        Some(Seq::empty())
    } else if !is_lead_surrogate(units[0]) && !is_trail_surrogate(units[0]) {
        match utf16_decode(units.drop_first()) {
            Some(rest) => Some(seq![units[0] as char] + rest),
            None => None,
        }
    } else if is_lead_surrogate(units[0]) && units.len() >= 2 && is_trail_surrogate(units[1]) {
        match utf16_decode(units.subrange(2, units.len() as int)) {
            Some(rest) => Some(seq![surrogate_pair_char(units[0], units[1])] + rest),
            None => None,
        }
    } else {
        None
    }
}

/// UTF-16 decoding where each unpaired surrogate becomes U+FFFD.
pub open spec fn utf16_lossy(units: Seq<u16>) -> Seq<char>
    decreases units.len(),
{
    if units.len() == 0 {
        Seq::empty()
    } else if !is_lead_surrogate(units[0]) && !is_trail_surrogate(units[0]) {
        seq![units[0] as char] + utf16_lossy(units.drop_first())
    } else if is_lead_surrogate(units[0]) && units.len() >= 2 && is_trail_surrogate(units[1]) {
        seq![surrogate_pair_char(units[0], units[1])] + utf16_lossy(units.subrange(2, units.len() as int))
    } else {
        seq!['\u{FFFD}'] + utf16_lossy(units.drop_first())
    }
}

/// `std::str::from_utf8`: succeeds exactly on well-formed UTF-8 and then
/// holds the decoded characters.
#[verifier::external_body]
fn str_from_utf8(bytes: &[u8]) -> (r: Option<String>)
    ensures
        r is Some <==> vstd::utf8::valid_utf8(bytes@),
        r matches Some(s) ==> s@ == vstd::utf8::decode_utf8(bytes@),
{
    std::str::from_utf8(bytes).ok().map(|text| text.to_owned())
}

/// `String::from_utf8_lossy`.
#[verifier::external_body]
fn string_from_utf8_lossy(bytes: &[u8]) -> (r: String)
    ensures
        r@ == utf8_lossy(bytes@),
{
    String::from_utf8_lossy(bytes).into_owned()
}

/// `String::from_utf16`: the decoded text, or `None` when the units hold an
/// unpaired surrogate, as `utf16_decode` states.
#[verifier::external_body]
fn string_from_utf16(units: &[u16]) -> (r: Option<String>)
    ensures
        r matches Some(s) ==> utf16_decode(units@) == Some(s@),
        r is None ==> utf16_decode(units@) is None,
{
    String::from_utf16(units).ok()
}

/// `String::from_utf16_lossy`: decoding with every unpaired surrogate
/// replaced by U+FFFD, as `utf16_lossy` states.
#[verifier::external_body]
fn string_from_utf16_lossy(units: &[u16]) -> (r: String)
    ensures
        r@ == utf16_lossy(units@),
{
    String::from_utf16_lossy(units)
}

/// UTF-8 decoding: the text and whether invalid bytes had to be replaced.
pub open spec fn spec_decode_utf8(bytes: Seq<u8>) -> (Seq<char>, bool) {
    if vstd::utf8::valid_utf8(bytes) {
        (vstd::utf8::decode_utf8(bytes), false)
    } else {
        (utf8_lossy(bytes), true)
    }
}

pub fn decode_utf8(bytes: &[u8]) -> (r: (Vec<char>, bool))
    ensures
        (r.0@, r.1) == spec_decode_utf8(bytes@),
{
    match str_from_utf8(bytes) {
        Some(text) => (to_chars(text.as_str()), false),
        None => {
            let text = string_from_utf8_lossy(bytes);
            (to_chars(text.as_str()), true)
        },
    }
}

/// The 16-bit code units of `bytes` taken pairwise, in little- or
/// big-endian order; a trailing odd byte is ignored.
pub open spec fn utf16_units(bytes: Seq<u8>, little_endian: bool) -> Seq<u16> {
    Seq::new(
        bytes.len() / 2,
        |i: int|
            if little_endian {
                (bytes[2 * i] as int + 256 * bytes[2 * i + 1] as int) as u16
            } else {
                (256 * bytes[2 * i] as int + bytes[2 * i + 1] as int) as u16
            },
    )
}

/// UTF-16 decoding: the text and whether it is lossy (an odd trailing byte
/// or invalid surrogates).
pub open spec fn spec_decode_utf16(bytes: Seq<u8>, little_endian: bool) -> (Seq<char>, bool) {
    let units = utf16_units(bytes, little_endian);
    match utf16_decode(units) {
        Some(text) => (text, bytes.len() % 2 != 0),
        None => (utf16_lossy(units), true),
    }
}

pub fn decode_utf16(bytes: &[u8], little_endian: bool) -> (r: (Vec<char>, bool))
    ensures
        (r.0@, r.1) == spec_decode_utf16(bytes@, little_endian),
{
    let mut units: Vec<u16> = Vec::new();
    let n = bytes.len() / 2;
    let mut i: usize = 0;
    while i < n
        invariant
            i <= n,
            n == bytes.len() / 2,
            units@ =~= utf16_units(bytes@, little_endian).take(i as int),
        decreases n - i,
    {
        let a = bytes[2 * i] as u16;
        let b = bytes[2 * i + 1] as u16;
        let unit: u16 = if little_endian {
            a + 256 * b
        } else {
            256 * a + b
        };
        units.push(unit);
        i = i + 1;
    }
    proof {
        assert(units@ =~= utf16_units(bytes@, little_endian));
    }
    let odd_byte = bytes.len() % 2 != 0;
    match string_from_utf16(units.as_slice()) {
        Some(text) => (to_chars(text.as_str()), odd_byte),
        None => {
            let text = string_from_utf16_lossy(units.as_slice());
            (to_chars(text.as_str()), true)
        },
    }
}

/// INI bytes to text: a UTF-8 byte-order mark selects UTF-8, `FF FE`
/// little-endian UTF-16, `FE FF` big-endian UTF-16; otherwise UTF-8. The
/// flag reports whether decoding had to replace or drop anything.
pub open spec fn spec_decode_ini(bytes: Seq<u8>) -> (Seq<char>, bool) {
    if bytes.len() >= 3 && bytes[0] == 0xEF && bytes[1] == 0xBB && bytes[2] == 0xBF {
        spec_decode_utf8(bytes.skip(3))
    } else if bytes.len() >= 2 && bytes[0] == 0xFF && bytes[1] == 0xFE {
        spec_decode_utf16(bytes.skip(2), true)
    } else if bytes.len() >= 2 && bytes[0] == 0xFE && bytes[1] == 0xFF {
        spec_decode_utf16(bytes.skip(2), false)
    } else {
        spec_decode_utf8(bytes)
    }
}

pub fn decode_ini(bytes: &[u8]) -> (r: (Vec<char>, bool))
    ensures
        (r.0@, r.1) == spec_decode_ini(bytes@),
{
    let n = bytes.len();
    if n >= 3 && bytes[0] == 0xEF && bytes[1] == 0xBB && bytes[2] == 0xBF {
        return decode_utf8(slice_subrange(bytes, 3, n));
    }
    if n >= 2 && bytes[0] == 0xFF && bytes[1] == 0xFE {
        return decode_utf16(slice_subrange(bytes, 2, n), true);
    }
    if n >= 2 && bytes[0] == 0xFE && bytes[1] == 0xFF {
        return decode_utf16(slice_subrange(bytes, 2, n), false);
    }
    decode_utf8(bytes)
}

// ---------------------------------------------------------------------------
// Lines and comments
// ---------------------------------------------------------------------------
/// The pieces of `s` between occurrences of `c`, empty ones included.
pub open spec fn split_on(s: Seq<char>, c: char) -> Seq<Seq<char>>
    decreases s.len(),
{
    if s.len() == 0 {
        seq![Seq::<char>::empty()]
    } else {
        let rest = split_on(s.drop_last(), c);
        if s.last() == c {
            rest.push(Seq::<char>::empty())
        } else {
            rest.update(rest.len() - 1, rest.last().push(s.last()))
        }
    }
}

pub proof fn lemma_split_on_nonempty(s: Seq<char>, c: char)
    ensures
        split_on(s, c).len() >= 1,
    decreases s.len(),
{
    if s.len() > 0 {
        lemma_split_on_nonempty(s.drop_last(), c);
    }
}

/// A line that was terminated by `\n` loses one trailing `\r`.
pub open spec fn strip_cr(line: Seq<char>) -> Seq<char> {
    if line.len() > 0 && line.last() == '\r' {
        line.drop_last()
    } else {
        line
    }
}

/// `str::lines`: split at `\n`, dropping one `\r` before each `\n`; a final
/// empty piece (text ending in a newline, or empty text) is not a line.
pub open spec fn spec_lines(text: Seq<char>) -> Seq<Seq<char>> {
    let pieces = split_on(text, '\n');
    let terminated = pieces.drop_last().map_values(|l: Seq<char>| strip_cr(l));
    if pieces.last().len() == 0 {
        terminated
    } else {
        terminated.push(pieces.last())
    }
}

/// Splits `s` at every occurrence of `c`.
fn split_chars_on(s: &[char], c: char) -> (r: Vec<Vec<char>>)
    ensures
        r@.len() == split_on(s@, c).len(),
        forall|k: int| 0 <= k < r@.len() ==> #[trigger] r@[k]@ == split_on(s@, c)[k],
{
    let mut r: Vec<Vec<char>> = Vec::new();
    r.push(Vec::new());
    let mut i: usize = 0;
    proof {
        assert(s@.take(0) =~= Seq::<char>::empty());
    }
    while i < s.len()
        invariant
            i <= s.len(),
            r@.len() == split_on(s@.take(i as int), c).len(),
            r@.len() >= 1,
            forall|k: int|
                0 <= k < r@.len() ==> #[trigger] r@[k]@ == split_on(s@.take(i as int), c)[k],
        decreases s.len() - i,
    {
        let d = s[i];
        proof {
            assert(s@.take(i + 1).drop_last() =~= s@.take(i as int));
            assert(s@.take(i + 1).last() == d);
        }
        if d == c {
            r.push(Vec::new());
        } else {
            let last = r.len() - 1;
            let mut seg = r.remove(last);
            seg.push(d);
            r.push(seg);
        }
        i = i + 1;
    }
    proof {
        assert(s@.take(s@.len() as int) =~= s@);
    }
    r
}

fn strip_cr_chars(line: &[char]) -> (r: Vec<char>)
    ensures
        r@ == strip_cr(line@),
{
    if line.len() > 0 && line[line.len() - 1] == '\r' {
        slice_to_vec(slice_subrange(line, 0, line.len() - 1))
    } else {
        slice_to_vec(line)
    }
}

/// The lines of a text, as `str::lines` yields them.
pub fn lines_of(text: &[char]) -> (r: Vec<Vec<char>>)
    ensures
        r@.len() == spec_lines(text@).len(),
        forall|k: int| 0 <= k < r@.len() ==> #[trigger] r@[k]@ == spec_lines(text@)[k],
{
    let pieces = split_chars_on(text, '\n');
    let ghost ps = split_on(text@, '\n');
    proof {
        lemma_split_on_nonempty(text@, '\n');
    }
    let mut r: Vec<Vec<char>> = Vec::new();
    let last = pieces.len() - 1;
    let mut k: usize = 0;
    while k < last
        invariant
            k <= last,
            last + 1 == pieces@.len(),
            pieces@.len() == ps.len(),
            ps == split_on(text@, '\n'),
            forall|j: int| 0 <= j < pieces@.len() ==> #[trigger] pieces@[j]@ == ps[j],
            r@.len() == k,
            forall|j: int| 0 <= j < k ==> #[trigger] r@[j]@ == strip_cr(ps[j]),
        decreases last - k,
    {
        let line = strip_cr_chars(pieces[k].as_slice());
        r.push(line);
        k = k + 1;
    }
    if pieces[last].len() > 0 {
        let tail = slice_to_vec(pieces[last].as_slice());
        r.push(tail);
    }
    proof {
        let terminated = ps.drop_last().map_values(|l: Seq<char>| strip_cr(l));
        assert(ps.last() == pieces@[last as int]@);
        assert forall|j: int| 0 <= j < r@.len() implies #[trigger] r@[j]@ == spec_lines(text@)[j] by {
            if j < last {
                assert(terminated[j] == strip_cr(ps[j]));
            }
        }
    }
    r
}

/// Where a `;` outside double quotes begins a comment (the length when
/// there is none); each `"` toggles quoting.
pub open spec fn comment_start(line: Seq<char>, quoted: bool) -> nat
    decreases line.len(),
{
    if line.len() == 0 {
        0
    } else if line[0] == '"' {
        1 + comment_start(line.drop_first(), !quoted)
    } else if line[0] == ';' && !quoted {
        0
    } else {
        1 + comment_start(line.drop_first(), quoted)
    }
}

pub proof fn lemma_comment_start_bound(line: Seq<char>, quoted: bool)
    ensures
        comment_start(line, quoted) <= line.len(),
    decreases line.len(),
{
    if line.len() > 0 {
        lemma_comment_start_bound(line.drop_first(), !quoted);
        lemma_comment_start_bound(line.drop_first(), quoted);
    }
}

/// A line without its trailing comment.
pub open spec fn spec_strip_comment(line: Seq<char>) -> Seq<char> {
    line.take(comment_start(line, false) as int)
}

pub fn strip_comment(line: &[char]) -> (r: Vec<char>)
    ensures
        r@ == spec_strip_comment(line@),
{
    let mut quoted = false;
    let mut i: usize = 0;
    proof {
        assert(line@.skip(0) =~= line@);
        lemma_comment_start_bound(line@, false);
    }
    while i < line.len()
        invariant
            i <= line.len(),
            comment_start(line@, false) == i + comment_start(line@.skip(i as int), quoted),
        decreases line.len() - i,
    {
        let c = line[i];
        proof {
            assert(line@.skip(i as int)[0] == c);
            assert(line@.skip(i as int).drop_first() =~= line@.skip(i + 1));
        }
        if c == '"' {
            quoted = !quoted;
        } else if c == ';' && !quoted {
            return slice_to_vec(slice_subrange(line, 0, i));
        }
        i = i + 1;
    }
    slice_to_vec(line)
}

/// Index of the first occurrence of `c`, if any.
pub open spec fn find_char(s: Seq<char>, c: char) -> Option<nat>
    decreases s.len(),
{
    if s.len() == 0 {
        None
    } else if s[0] == c {
        Some(0)
    } else {
        match find_char(s.drop_first(), c) {
            Some(i) => Some(i + 1),
            None => None,
        }
    }
}

pub proof fn lemma_find_char(s: Seq<char>, c: char)
    ensures
        find_char(s, c) matches Some(i) ==> i < s.len() && s[i as int] == c && forall|j: int|
            0 <= j < i ==> s[j] != c,
        find_char(s, c) is None ==> forall|j: int| 0 <= j < s.len() ==> s[j] != c,
    decreases s.len(),
{
    if s.len() > 0 && s[0] != c {
        lemma_find_char(s.drop_first(), c);
        if let Some(i) = find_char(s.drop_first(), c) {
            assert forall|j: int| 0 <= j < i + 1 implies s[j] != c by {
                if j > 0 {
                    assert(s[j] == s.drop_first()[j - 1]);
                }
            }
        } else {
            assert forall|j: int| 0 <= j < s.len() implies s[j] != c by {
                if j > 0 {
                    assert(s[j] == s.drop_first()[j - 1]);
                }
            }
        }
    }
}

pub fn find(s: &[char], c: char) -> (r: Option<usize>)
    ensures
        r matches Some(i) ==> find_char(s@, c) == Some(i as nat),
        r is None ==> find_char(s@, c) is None,
{
    let mut i: usize = 0;
    proof {
        assert(s@.skip(0) =~= s@);
    }
    while i < s.len()
        invariant
            i <= s.len(),
            forall|j: int| 0 <= j < i ==> s@[j] != c,
        decreases s.len() - i,
    {
        if s[i] == c {
            proof {
                lemma_find_char(s@, c);
                if let Some(k) = find_char(s@, c) {
                    assert(k == i);
                }
            }
            return Some(i);
        }
        i = i + 1;
    }
    proof {
        lemma_find_char(s@, c);
    }
    None
}

// ---------------------------------------------------------------------------
// Parsing
// ---------------------------------------------------------------------------
/// A section: its name and its `key = value` assignments in order, keys
/// in ASCII lower case.
pub struct SpecSection {
    pub name: Seq<char>,
    pub assignments: Seq<(Seq<char>, Seq<char>)>,
}

/// The parser's state after some lines.
pub struct SpecParse {
    pub namespace: Option<Seq<char>>,
    pub sections: Seq<SpecSection>,
    pub current: Option<SpecSection>,
    pub warnings: Seq<Seq<char>>,
}

pub open spec fn namespace_key() -> Seq<char> {
    seq!['n', 'a', 'm', 'e', 's', 'p', 'a', 'c', 'e']
}

pub open spec fn warn_empty_section(line_no: nat) -> Seq<char> {
    "第 "@ + decimal(line_no) + " 行包含空节名。"@
}

pub open spec fn warn_missing_bracket(line_no: nat) -> Seq<char> {
    "第 "@ + decimal(line_no) + " 行的节头缺少 ]。"@
}

pub open spec fn warn_duplicate_namespace(line_no: nat) -> Seq<char> {
    "第 "@ + decimal(line_no) + " 行重复声明 namespace。"@
}

/// One line of INI text applied to the parser state (`index` counts from 0).
///
/// Blank and comment-only lines change nothing. A line starting with `[`
/// that holds a `]` closes the open section, and the text between the
/// brackets, trimmed, names the next section (an empty name is reported and
/// opens none); a `[` line without `]` is reported and otherwise ignored, so
/// the open section stays open. Any other line with an
/// `=` is an assignment: the trimmed key in ASCII lower case and the trimmed
/// value. Inside a section it is recorded there; before any section only
/// `namespace` counts, and a repeated one is reported (the last one wins).
pub open spec fn parse_step(st: SpecParse, index: nat, raw: Seq<char>) -> SpecParse {
    let line = trim(spec_strip_comment(raw));
    if line.len() == 0 {
        st
    } else if line[0] == '[' {
        match find_char(line, ']') {
            Some(end) => {
                let sections = match st.current {
                    Some(c) => st.sections.push(c),
                    None => st.sections,
                };
                let name = trim(line.subrange(1, end as int));
                if name.len() == 0 {
                    SpecParse {
                        sections,
                        current: None,
                        warnings: st.warnings.push(warn_empty_section(index + 1)),
                        ..st
                    }
                } else {
                    SpecParse {
                        sections,
                        current: Some(SpecSection { name, assignments: Seq::empty() }),
                        ..st
                    }
                }
            },
            None => SpecParse { warnings: st.warnings.push(warn_missing_bracket(index + 1)), ..st },
        }
    } else {
        match find_char(line, '=') {
            None => st,
            Some(eq) => {
                let key = lower_seq(trim(line.take(eq as int)));
                let value = trim(line.skip((eq + 1) as int));
                if key.len() == 0 {
                    st
                } else {
                    match st.current {
                        Some(c) => SpecParse {
                            current: Some(
                                SpecSection {
                                    name: c.name,
                                    assignments: c.assignments.push((key, value)),
                                },
                            ),
                            ..st
                        },
                        None => if key == namespace_key() {
                            SpecParse {
                                namespace: Some(value),
                                warnings: if st.namespace is Some {
                                    st.warnings.push(warn_duplicate_namespace(index + 1))
                                } else {
                                    st.warnings
                                },
                                ..st
                            }
                        } else {
                            st
                        },
                    }
                }
            },
        }
    }
}

pub open spec fn initial_parse() -> SpecParse {
    SpecParse { namespace: None, sections: Seq::empty(), current: None, warnings: Seq::empty() }
}

/// The state after the first `k` lines.
pub open spec fn parse_lines(lines: Seq<Seq<char>>, k: nat) -> SpecParse
    decreases k,
{
    if k == 0 {
        initial_parse()
    } else {
        parse_step(parse_lines(lines, (k - 1) as nat), (k - 1) as nat, lines[k - 1])
    }
}

/// The parsed document: its explicit namespace, its sections in order and
/// the problems met.
pub struct SpecIni {
    pub namespace: Option<Seq<char>>,
    pub sections: Seq<SpecSection>,
    pub warnings: Seq<Seq<char>>,
}

pub open spec fn spec_parse_ini(text: Seq<char>) -> SpecIni {
    let lines = spec_lines(text);
    let st = parse_lines(lines, lines.len());
    SpecIni {
        namespace: st.namespace,
        sections: match st.current {
            Some(c) => st.sections.push(c),
            None => st.sections,
        },
        warnings: st.warnings,
    }
}

/// A parsed section.
pub struct IniSection {
    pub name: Vec<char>,
    pub assignments: Vec<(Vec<char>, Vec<char>)>,
}

impl IniSection {
    pub open spec fn spec(&self) -> SpecSection {
        SpecSection {
            name: self.name@,
            assignments: self.assignments@.map_values(
                |p: (Vec<char>, Vec<char>)| (p.0@, p.1@),
            ),
        }
    }
}

/// A parsed INI document.
pub struct ParsedIni {
    pub namespace: Option<Vec<char>>,
    pub sections: Vec<IniSection>,
    pub warnings: Vec<Vec<char>>,
}

pub open spec fn opt_view(o: Option<Vec<char>>) -> Option<Seq<char>> {
    match o {
        Some(v) => Some(v@),
        None => None,
    }
}

pub open spec fn sections_view(v: Seq<IniSection>) -> Seq<SpecSection> {
    v.map_values(|s: IniSection| s.spec())
}

pub open spec fn chars_view(v: Seq<Vec<char>>) -> Seq<Seq<char>> {
    v.map_values(|s: Vec<char>| s@)
}

impl ParsedIni {
    pub open spec fn spec(&self) -> SpecIni {
        SpecIni {
            namespace: opt_view(self.namespace),
            sections: sections_view(self.sections@),
            warnings: chars_view(self.warnings@),
        }
    }
}

fn literal(s: &str) -> (v: Vec<char>)
    ensures
        v@ == s@,
{
    to_chars(s)
}

fn line_message(prefix: &str, line_no: u64, suffix: &str) -> (v: Vec<char>)
    ensures
        v@ == prefix@ + decimal(line_no as nat) + suffix@,
{
    let mut v = literal(prefix);
    let d = decimal_chars(line_no);
    let s = literal(suffix);
    let ghost p = v@;
    v.extend_from_slice(d.as_slice());
    v.extend_from_slice(s.as_slice());
    proof {
        assert(v@ =~= p + d@ + s@);
    }
    v
}

fn is_namespace_key(key: &[char]) -> (b: bool)
    ensures
        b == (key@ == namespace_key()),
{
    let r = key.len() == 9 && key[0] == 'n' && key[1] == 'a' && key[2] == 'm' && key[3] == 'e'
        && key[4] == 's' && key[5] == 'p' && key[6] == 'a' && key[7] == 'c' && key[8] == 'e';
    proof {
        if r {
            assert(key@ =~= namespace_key());
        }
        if key@ == namespace_key() {
            assert(key@[0] == 'n' && key@[1] == 'a' && key@[2] == 'm' && key@[3] == 'e' && key@[4]
                == 's' && key@[5] == 'p' && key@[6] == 'a' && key@[7] == 'c' && key@[8] == 'e');
        }
    }
    r
}

fn section_spec_push(
    sections: &mut Vec<IniSection>,
    s: IniSection,
)
    ensures
        sections_view(final(sections)@) == sections_view(old(sections)@).push(s.spec()),
{
    sections.push(s);
    proof {
        assert(sections_view(sections@) =~= sections_view(old(sections)@).push(s.spec()));
    }
}

/// Parses INI text into its namespace, sections and warnings.
pub fn parse_ini(text: &[char]) -> (r: ParsedIni)
    ensures
        r.spec() == spec_parse_ini(text@),
{
    let lines = lines_of(text);
    let ghost ls = spec_lines(text@);
    let mut namespace: Option<Vec<char>> = None;
    let mut sections: Vec<IniSection> = Vec::new();
    let mut current: Option<IniSection> = None;
    let mut warnings: Vec<Vec<char>> = Vec::new();
    let mut index: usize = 0;
    proof {
        assert(sections_view(sections@) =~= Seq::<SpecSection>::empty());
        assert(chars_view(warnings@) =~= Seq::<Seq<char>>::empty());
    }
    while index < lines.len()
        invariant
            index <= lines@.len(),
            lines@.len() == ls.len(),
            ls == spec_lines(text@),
            forall|k: int| 0 <= k < lines@.len() ==> #[trigger] lines@[k]@ == ls[k],
            ({
                let st = parse_lines(ls, index as nat);
                &&& opt_view(namespace) == st.namespace
                &&& sections_view(sections@) == st.sections
                &&& match current {
                    Some(c) => st.current == Some(c.spec()),
                    None => st.current is None,
                }
                &&& chars_view(warnings@) == st.warnings
            }),
        decreases lines@.len() - index,
    {
        let ghost before = parse_lines(ls, index as nat);
        let raw = &lines[index];
        let stripped = strip_comment(raw.as_slice());
        let line = trim_chars(stripped.as_slice());
        let line_no: u64 = index as u64 + 1;
        proof {
            assert(raw@ == ls[index as int]);
            assert(parse_lines(ls, (index + 1) as nat) == parse_step(before, index as nat, raw@));
        }
        if line.len() == 0 {
        } else if line[0] == '[' {
            match find(line.as_slice(), ']') {
                Some(end) => {
                    proof {
                        lemma_find_char(line@, ']');
                    }
                    let taken = current.take();
                    match taken {
                        Some(c) => {
                            section_spec_push(&mut sections, c);
                        },
                        None => {},
                    }
                    let name = trim_chars(slice_subrange(line.as_slice(), 1, end));
                    if name.len() == 0 {
                        let w = line_message("第 ", line_no, " 行包含空节名。");
                        let ghost ws = chars_view(warnings@);
                        warnings.push(w);
                        proof {
                            assert(chars_view(warnings@) =~= ws.push(w@));
                        }
                    } else {
                        let fresh = IniSection { name, assignments: Vec::new() };
                        proof {
                            assert(fresh.spec().assignments =~= Seq::<(Seq<char>, Seq<char>)>::empty());
                        }
                        current = Some(fresh);
                    }
                },
                None => {
                    let w = line_message("第 ", line_no, " 行的节头缺少 ]。");
                    let ghost ws = chars_view(warnings@);
                    warnings.push(w);
                    proof {
                        assert(chars_view(warnings@) =~= ws.push(w@));
                    }
                },
            }
        } else {
            match find(line.as_slice(), '=') {
                None => {},
                Some(eq) => {
                    proof {
                        lemma_find_char(line@, '=');
                    }
                    let raw_key = trim_chars(slice_subrange(line.as_slice(), 0, eq));
                    let key = lower_chars(raw_key.as_slice());
                    let value = trim_chars(slice_subrange(line.as_slice(), eq + 1, line.len()));
                    proof {
                        assert(line@.subrange(0, eq as int) =~= line@.take(eq as int));
                        assert(line@.subrange(eq + 1, line@.len() as int) =~= line@.skip(eq + 1));
                    }
                    if key.len() == 0 {
                    } else {
                        match current {
                            Some(ref mut c) => {
                                let ghost old_c = c.spec();
                                c.assignments.push((key, value));
                                proof {
                                    assert(c.spec().assignments =~= old_c.assignments.push(
                                        (key@, value@),
                                    ));
                                }
                            },
                            None => {
                                if is_namespace_key(key.as_slice()) {
                                    let had = namespace.is_some();
                                    namespace = Some(value);
                                    if had {
                                        let w = line_message(
                                            "第 ",
                                            line_no,
                                            " 行重复声明 namespace。",
                                        );
                                        let ghost ws = chars_view(warnings@);
                                        warnings.push(w);
                                        proof {
                                            assert(chars_view(warnings@) =~= ws.push(w@));
                                        }
                                    }
                                }
                            },
                        }
                    }
                },
            }
        }
        index = index + 1;
    }
    match current {
        Some(c) => {
            section_spec_push(&mut sections, c);
        },
        None => {},
    }
    ParsedIni { namespace, sections, warnings }
}

} // verus!
