//! Directory names that EFMI treats as disabled (`DISABLED…`), and the
//! byte-offset arithmetic that `str::get` performs on them.
use vstd::prelude::*;
use crate::text::{chars_starts_with_ic, eq_ic, from_chars, slice_subrange, slice_to_vec, to_chars};

verus! {

/// Number of UTF-8 bytes that encode `c`.
pub open spec fn utf8_len(c: char) -> nat {
    if (c as u32) < 0x80 {
        1
    } else if (c as u32) < 0x800 {
        2
    } else if (c as u32) < 0x10000 {
        3
    } else {
        4
    }
}

/// Number of UTF-8 bytes that encode `s`.
pub open spec fn byte_len(s: Seq<char>) -> nat
    decreases s.len(),
{
    if s.len() == 0 {
        0
    } else {
        byte_len(s.drop_last()) + utf8_len(s.last())
    }
}

/// `str::get(n..)`: the characters after byte offset `n`, when `n` falls on
/// a character boundary.
pub open spec fn after_bytes(s: Seq<char>, n: nat) -> Option<Seq<char>> {
    if exists|k: int| 0 <= k <= s.len() && byte_len(#[trigger] s.take(k)) == n {
        let k = choose|k: int| 0 <= k <= s.len() && byte_len(#[trigger] s.take(k)) == n;
        Some(s.skip(k))
    } else {
        None
    }
}

pub proof fn lemma_byte_len_take_mono(s: Seq<char>, i: int, j: int)
    requires
        0 <= i <= j <= s.len(),
    ensures
        byte_len(s.take(i)) + (j - i) <= byte_len(s.take(j)),
    decreases j - i,
{
    if i < j {
        lemma_byte_len_take_mono(s, i, j - 1);
        assert(s.take(j).drop_last() =~= s.take(j - 1));
    }
}

fn char_utf8_len(c: char) -> (n: usize)
    ensures
        n == utf8_len(c),
{
    let v = c as u32;
    if v < 0x80 {
        1
    } else if v < 0x800 {
        2
    } else if v < 0x10000 {
        3
    } else {
        4
    }
}

/// `str::get(n..)` on characters.
pub fn chars_after_bytes(s: &[char], n: usize) -> (r: Option<Vec<char>>)
    requires
        n <= usize::MAX - 4,
    ensures
        r matches Some(v) ==> after_bytes(s@, n as nat) == Some(v@),
        r is None ==> after_bytes(s@, n as nat) is None,
{
    let mut k: usize = 0;
    let mut bytes: usize = 0;
    proof {
        assert(s@.take(0) =~= Seq::<char>::empty());
    }
    while k < s.len() && bytes < n
        invariant
            k <= s.len(),
            bytes == byte_len(s@.take(k as int)),
            bytes <= n + 4,
            n <= usize::MAX - 4,
            forall|j: int| 0 <= j < k ==> byte_len(#[trigger] s@.take(j)) < n,
        decreases s.len() - k,
    {
        proof {
            assert(s@.take(k + 1).drop_last() =~= s@.take(k as int));
        }
        bytes = bytes + char_utf8_len(s[k]);
        k = k + 1;
    }
    if bytes == n {
        let rest = slice_to_vec(slice_subrange(s, k, s.len()));
        proof {
            assert(byte_len(s@.take(k as int)) == n);
            let w = choose|w: int| 0 <= w <= s@.len() && byte_len(#[trigger] s@.take(w)) == n;
            if w < k {
            } else if w > k {
                lemma_byte_len_take_mono(s@, k as int, w);
            }
            assert(w == k);
            assert(rest@ =~= s@.skip(k as int));
        }
        Some(rest)
    } else {
        proof {
            assert forall|w: int| 0 <= w <= s@.len() implies byte_len(#[trigger] s@.take(w)) != n by {
                if w > k {
                    lemma_byte_len_take_mono(s@, k as int, w);
                } else if w == k {
                }
            }
        }
        None
    }
}

pub open spec fn disabled_word() -> Seq<char> {
    seq!['D', 'I', 'S', 'A', 'B', 'L', 'E', 'D']
}

/// A directory EFMI skips: its name begins with `DISABLED`, in any case.
pub open spec fn disabled_name(name: Seq<char>) -> bool {
    name.len() >= 8 && eq_ic(name.take(8), disabled_word())
}

fn disabled_word_chars() -> (v: Vec<char>)
    ensures
        v@ == disabled_word(),
{
    let mut v = Vec::new();
    v.push('D');
    v.push('I');
    v.push('S');
    v.push('A');
    v.push('B');
    v.push('L');
    v.push('E');
    v.push('D');
    proof {
        assert(v@ =~= disabled_word());
    }
    v
}

pub fn is_disabled_chars(name: &[char]) -> (b: bool)
    ensures
        b == disabled_name(name@),
{
    let word = disabled_word_chars();
    chars_starts_with_ic(name, word.as_slice())
}

/// Whether a directory name carries EFMI's `DISABLED` prefix (any case).
pub fn is_disabled_name(name: &str) -> (b: bool)
    ensures
        b == disabled_name(name@),
{
    let chars = to_chars(name);
    is_disabled_chars(chars.as_slice())
}

pub open spec fn is_prefix_filler(c: char) -> bool {
    c == '_' || c == '-' || c == ' '
}

/// Number of leading `_`, `-` and space characters.
pub open spec fn lead_filler(s: Seq<char>) -> nat
    decreases s.len(),
{
    if s.len() > 0 && is_prefix_filler(s[0]) {
        1 + lead_filler(s.drop_first())
    } else {
        0
    }
}

/// `trim_start_matches(['_', '-', ' '])`.
pub open spec fn trim_filler(s: Seq<char>) -> Seq<char> {
    s.skip(lead_filler(s) as int)
}

pub proof fn lemma_lead_filler_bound(s: Seq<char>)
    ensures
        lead_filler(s) <= s.len(),
    decreases s.len(),
{
    if s.len() > 0 && is_prefix_filler(s[0]) {
        lemma_lead_filler_bound(s.drop_first());
    }
}

pub fn trim_filler_chars(s: &[char]) -> (r: Vec<char>)
    ensures
        r@ == trim_filler(s@),
{
    let mut i: usize = 0;
    proof {
        assert(s@.skip(0) =~= s@);
    }
    while i < s.len() && (s[i] == '_' || s[i] == '-' || s[i] == ' ')
        invariant
            i <= s.len(),
            lead_filler(s@) == i + lead_filler(s@.skip(i as int)),
        decreases s.len() - i,
    {
        proof {
            assert(s@.skip(i as int).drop_first() =~= s@.skip(i + 1));
            assert(s@.skip(i as int)[0] == s@[i as int]);
        }
        i = i + 1;
    }
    proof {
        if i < s.len() {
            assert(s@.skip(i as int)[0] == s@[i as int]);
        }
    }
    slice_to_vec(slice_subrange(s, i, s.len()))
}

/// What remains of a name once its first eight bytes and any following
/// `_`, `-` or spaces are removed (empty when byte eight is not a character
/// boundary). This is applied whether or not the name is disabled.
pub open spec fn spec_strip_disabled_prefix(name: Seq<char>) -> Seq<char> {
    match after_bytes(name, 8) {
        Some(rest) => trim_filler(rest),
        None => trim_filler(Seq::empty()),
    }
}

proof fn lemma_byte_len_ascii(w: Seq<char>)
    requires
        forall|i: int| 0 <= i < w.len() ==> (#[trigger] w[i] as u32) < 0x80,
    ensures
        byte_len(w) == w.len(),
    decreases w.len(),
{
    if w.len() > 0 {
        lemma_byte_len_ascii(w.drop_last());
    }
}

proof fn lemma_lead_filler_of(seps: Seq<char>, rest: Seq<char>)
    requires
        forall|i: int| 0 <= i < seps.len() ==> #[trigger] seps[i] == '_' || seps[i] == '-' || seps[i] == ' ',
        rest.len() == 0 || !(rest[0] == '_' || rest[0] == '-' || rest[0] == ' '),
    ensures
        lead_filler(seps + rest) == seps.len(),
    decreases seps.len(),
{
    if seps.len() > 0 {
        assert((seps + rest).drop_first() =~= seps.drop_first() + rest);
        lemma_lead_filler_of(seps.drop_first(), rest);
    } else {
        assert(seps + rest =~= rest);
    }
}

/// After an eight-character ASCII prefix such as `DISABLED`, any run of
/// `_`, `-` and spaces is removed and the rest is kept as it is:
/// `DISABLED-x`, `DISABLED_x`, `DISABLED x` and `DISABLED_- x` all give `x`.
pub proof fn lemma_strip_disabled_separators(prefix: Seq<char>, seps: Seq<char>, rest: Seq<char>)
    requires
        prefix.len() == 8,
        forall|i: int| 0 <= i < prefix.len() ==> (#[trigger] prefix[i] as u32) < 0x80,
        forall|i: int| 0 <= i < seps.len() ==> #[trigger] seps[i] == '_' || seps[i] == '-' || seps[i] == ' ',
        rest.len() == 0 || !(rest[0] == '_' || rest[0] == '-' || rest[0] == ' '),
    ensures
        spec_strip_disabled_prefix(prefix + seps + rest) == rest,
{
    let name = prefix + seps + rest;
    let tail = seps + rest;
    lemma_byte_len_ascii(prefix);
    assert(name.take(8) =~= prefix);
    assert(name.skip(8) =~= tail);
    assert(byte_len(name.take(8)) == 8);
    assert forall|k: int| 0 <= k <= name.len() && byte_len(#[trigger] name.take(k)) == 8 implies k == 8 by {
        if k < 8 {
            assert(name.take(k) =~= prefix.take(k));
            assert forall|i: int| 0 <= i < prefix.take(k).len() implies (#[trigger] prefix.take(k)[i] as u32) < 0x80 by {
                assert(prefix.take(k)[i] == prefix[i]);
            }
            lemma_byte_len_ascii(prefix.take(k));
        } else if k > 8 {
            lemma_byte_len_take_mono(name, 8, k);
        }
    }
    assert(after_bytes(name, 8) == Some(tail));
    lemma_lead_filler_of(seps, rest);
    assert(tail.skip(seps.len() as int) =~= rest);
}

pub fn strip_disabled_chars(name: &[char]) -> (r: Vec<char>)
    ensures
        r@ == spec_strip_disabled_prefix(name@),
{
    match chars_after_bytes(name, 8) {
        Some(rest) => trim_filler_chars(rest.as_slice()),
        None => {
            let empty: Vec<char> = Vec::new();
            trim_filler_chars(empty.as_slice())
        },
    }
}

/// Removes the first eight bytes and the separator characters after them.
pub fn strip_disabled_prefix(name: &str) -> (r: String)
    ensures
        r@ == spec_strip_disabled_prefix(name@),
{
    let chars = to_chars(name);
    let r = strip_disabled_chars(chars.as_slice());
    from_chars(r.as_slice())
}

/// The name a directory has while enabled: a disabled name loses its
/// `DISABLED` prefix and separators; any other name is kept.
pub open spec fn spec_enabled_name(name: Seq<char>) -> Seq<char> {
    if disabled_name(name) {
        spec_strip_disabled_prefix(name)
    } else {
        name
    }
}

pub fn enabled_name_chars(name: &[char]) -> (r: Vec<char>)
    ensures
        r@ == spec_enabled_name(name@),
{
    if is_disabled_chars(name) {
        strip_disabled_chars(name)
    } else {
        slice_to_vec(name)
    }
}

/// `enabled_directory_name`: the repository key a mod is known by whether
/// its directory is currently enabled or disabled.
pub fn enabled_directory_name(name: &str) -> (r: String)
    ensures
        r@ == spec_enabled_name(name@),
{
    let chars = to_chars(name);
    let r = enabled_name_chars(chars.as_slice());
    from_chars(r.as_slice())
}

} // verus!
