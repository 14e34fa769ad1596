//! Identifiers: BLAKE3 digests, UUID text and decimal numbers.
use vstd::prelude::*;
use crate::text::{from_chars, to_chars};

verus! {

/// What `blake3::hash(data).to_hex()` yields for `data`.
pub uninterp spec fn blake3_hex(data: Seq<u8>) -> Seq<char>;

pub open spec fn is_lower_hex(c: char) -> bool {
    ('0' <= c && c <= '9') || ('a' <= c && c <= 'f')
}

/// `blake3::hash` followed by `Hash::to_hex`: the 32-byte BLAKE3 digest of
/// `data` written as 64 lowercase hexadecimal digits.
#[verifier::external_body]
fn blake3_hex_digest(data: &[u8]) -> (r: String)
    ensures
        r@ == blake3_hex(data@),
        r@.len() == 64,
        forall|i: int| 0 <= i < 64 ==> is_lower_hex(#[trigger] r@[i]),
{
    blake3::hash(data).to_hex().to_string()
}

/// The BLAKE3 digest of `data` as 64 lowercase hexadecimal characters.
pub fn blake3_hex_chars(data: &[u8]) -> (r: Vec<char>)
    ensures
        r@ == blake3_hex(data@),
        r@.len() == 64,
        forall|i: int| 0 <= i < 64 ==> is_lower_hex(#[trigger] r@[i]),
{
    let s = blake3_hex_digest(data);
    to_chars(s.as_str())
}

// ---------------------------------------------------------------------------
// Streaming BLAKE3
// ---------------------------------------------------------------------------
#[verifier::external_type_specification]
#[verifier::external_body]
pub struct ExBlake3Hasher(blake3::Hasher);

/// The bytes a `blake3::Hasher` holds: all input fed to it since it was
/// made, in order.
pub uninterp spec fn hasher_input(h: blake3::Hasher) -> Seq<u8>;

/// `blake3::Hasher::new`: a hasher that has been fed nothing.
#[verifier::external_body]
fn hasher_new() -> (h: blake3::Hasher)
    ensures
        hasher_input(h) == Seq::<u8>::empty(),
{
    blake3::Hasher::new()
}

/// `blake3::Hasher::update`: appends `chunk` to the input.
#[verifier::external_body]
fn hasher_update(h: &mut blake3::Hasher, chunk: &[u8])
    ensures
        hasher_input(*final(h)) == hasher_input(*old(h)) + chunk@,
{
    h.update(chunk);
}

/// `blake3::Hasher::finalize` followed by `Hash::to_hex`: the crate
/// documents that incremental hashing gives `blake3::hash` of all input
/// fed, so this is the digest of that input as 64 lowercase hexadecimal
/// digits.
#[verifier::external_body]
fn hasher_hex(h: &blake3::Hasher) -> (r: String)
    ensures
        r@ == blake3_hex(hasher_input(*h)),
        r@.len() == 64,
        forall|i: int| 0 <= i < 64 ==> is_lower_hex(#[trigger] r@[i]),
{
    h.finalize().to_hex().to_string()
}

/// A BLAKE3 digest computed over content fed in chunks; its view is the
/// content fed so far.
pub struct ContentHasher {
    hasher: blake3::Hasher,
}

impl View for ContentHasher {
    type V = Seq<u8>;

    closed spec fn view(&self) -> Seq<u8> {
        hasher_input(self.hasher)
    }
}

impl ContentHasher {
    pub fn new() -> (h: ContentHasher)
        ensures
            h@ == Seq::<u8>::empty(),
    {
        ContentHasher { hasher: hasher_new() }
    }

    /// Feeds the next chunk of content.
    pub fn update(&mut self, chunk: &[u8])
        ensures
            final(self)@ == old(self)@ + chunk@,
    {
        hasher_update(&mut self.hasher, chunk);
    }

    /// The digest of all content fed, as 64 lowercase hexadecimal digits.
    pub fn finish_hex(&self) -> (r: String)
        ensures
            r@ == blake3_hex(self@),
            r@.len() == 64,
            forall|i: int| 0 <= i < 64 ==> is_lower_hex(#[trigger] r@[i]),
    {
        hasher_hex(&self.hasher)
    }
}

/// The UTF-8 encoding of a character sequence.
pub fn utf8_bytes(s: &[char]) -> (r: Vec<u8>)
    ensures
        r@ == vstd::utf8::encode_utf8(s@),
{
    let st = from_chars(s);
    let b = st.as_str().as_bytes();
    crate::text::slice_to_vec(b)
}

pub open spec fn hex_digit(d: nat) -> char {
    if d < 10 {
        ((d + 48) as u32) as char
    } else {
        ((d + 87) as u32) as char
    }
}

fn hex_digit_exec(d: u8) -> (c: char)
    requires
        d < 16,
    ensures
        c == hex_digit(d as nat),
{
    if d < 10 {
        let b: u8 = d + 48;
        let c = b as char;
        proof {
            assert(c as u32 == (d + 48) as u32);
        }
        c
    } else {
        let b: u8 = d + 87;
        let c = b as char;
        proof {
            assert(c as u32 == (d + 87) as u32);
        }
        c
    }
}

/// The last `count` hexadecimal digits of `n`, most significant first.
pub open spec fn hex_digits(n: nat, count: nat) -> Seq<char>
    decreases count,
{
    if count == 0 {
        Seq::empty()
    } else {
        hex_digits(n / 16, (count - 1) as nat).push(hex_digit(n % 16))
    }
}

/// The hyphenated lowercase text of a UUID (`8-4-4-4-12` hexadecimal digits),
/// which is how `uuid::Uuid` displays itself.
pub open spec fn uuid_text(id: u128) -> Seq<char> {
    let h = hex_digits(id as nat, 32);
    h.subrange(0, 8) + seq!['-'] + h.subrange(8, 12) + seq!['-'] + h.subrange(12, 16) + seq!['-']
        + h.subrange(16, 20) + seq!['-'] + h.subrange(20, 32)
}

proof fn lemma_hex_digits_len(n: nat, count: nat)
    ensures
        hex_digits(n, count).len() == count,
    decreases count,
{
    if count > 0 {
        lemma_hex_digits_len(n / 16, (count - 1) as nat);
    }
}

pub(crate) fn hex_digit_vec(id: u128) -> (r: Vec<char>)
    ensures
        r@ == hex_digits(id as nat, 32),
{
    let mut acc: Vec<char> = Vec::new();
    let mut cur: u128 = id;
    let mut i: usize = 0;
    while i < 32
        invariant
            i <= 32,
            hex_digits(id as nat, 32) == hex_digits(cur as nat, (32 - i) as nat) + acc@,
        decreases 32 - i,
    {
        let d = (cur % 16) as u8;
        let c = hex_digit_exec(d);
        let ghost old_acc = acc@;
        acc.insert(0, c);
        proof {
            let n = (32 - i) as nat;
            let x = hex_digits((cur / 16) as nat, (n - 1) as nat);
            assert(hex_digits(cur as nat, n) == x.push(hex_digit((cur % 16) as nat)));
            assert(x.push(c) + old_acc =~= x + acc@);
        }
        cur = cur / 16;
        i = i + 1;
    }
    proof {
        assert(hex_digits(cur as nat, 0) =~= Seq::<char>::empty());
        assert(Seq::<char>::empty() + acc@ =~= acc@);
    }
    acc
}

/// Appends `h[from..to]` to `r`.
fn append_range(r: &mut Vec<char>, h: &[char], from: usize, to: usize)
    requires
        from <= to <= h.len(),
    ensures
        final(r)@ == old(r)@ + h@.subrange(from as int, to as int),
{
    let mut i = from;
    while i < to
        invariant
            from <= i <= to,
            to <= h.len(),
            r@ == old(r)@ + h@.subrange(from as int, i as int),
        decreases to - i,
    {
        r.push(h[i]);
        i = i + 1;
        proof {
            assert(old(r)@ + h@.subrange(from as int, i as int) =~= (old(r)@ + h@.subrange(
                from as int,
                i - 1,
            )).push(h@[i - 1]));
        }
    }
}

/// The hyphenated lowercase text of a UUID given as a 128-bit number.
pub fn uuid_chars(id: u128) -> (r: Vec<char>)
    ensures
        r@ == uuid_text(id),
        r@.len() == 36,
{
    let h = hex_digit_vec(id);
    proof {
        lemma_hex_digits_len(id as nat, 32);
    }
    let mut r: Vec<char> = Vec::new();
    append_range(&mut r, h.as_slice(), 0, 8);
    r.push('-');
    append_range(&mut r, h.as_slice(), 8, 12);
    r.push('-');
    append_range(&mut r, h.as_slice(), 12, 16);
    r.push('-');
    append_range(&mut r, h.as_slice(), 16, 20);
    r.push('-');
    append_range(&mut r, h.as_slice(), 20, 32);
    proof {
        assert(r@ =~= uuid_text(id));
    }
    r
}

/// The UUID text of a 128-bit identifier.
pub fn uuid_string(id: u128) -> (r: String)
    ensures
        r@ == uuid_text(id),
{
    let v = uuid_chars(id);
    from_chars(v.as_slice())
}

/// The value of a hexadecimal digit in either case, -1 for any other
/// character.
pub open spec fn hex_value(c: char) -> int {
    if '0' <= c && c <= '9' {
        c as int - 48
    } else if 'a' <= c && c <= 'f' {
        c as int - 87
    } else if 'A' <= c && c <= 'F' {
        c as int - 55
    } else {
        -1
    }
}

/// The number that hexadecimal digits denote, most significant first.
pub open spec fn hex_number(h: Seq<char>) -> int
    decreases h.len(),
{
    if h.len() == 0 {
        0
    } else {
        hex_number(h.drop_last()) * 16 + hex_value(h.last())
    }
}

/// The 32 digits of hyphenated UUID text: groups of 8, 4, 4, 4 and 12
/// digits separated by `-`.
pub open spec fn hyphenated_digits(s: Seq<char>) -> Option<Seq<char>> {
    if s.len() == 36 && s[8] == '-' && s[13] == '-' && s[18] == '-' && s[23] == '-' {
        Some(s.subrange(0, 8) + s.subrange(9, 13) + s.subrange(14, 18) + s.subrange(19, 23) + s.subrange(24, 36))
    } else {
        None
    }
}

/// The digits of the four forms of UUID text: 32 digits, hyphenated,
/// hyphenated in braces, and hyphenated after `urn:uuid:` (in any case).
pub open spec fn uuid_digits(text: Seq<char>) -> Option<Seq<char>> {
    if text.len() == 32 {
        Some(text)
    } else if text.len() == 36 {
        hyphenated_digits(text)
    } else if text.len() == 38 && text[0] == '{' && text[37] == '}' {
        hyphenated_digits(text.subrange(1, 37))
    } else if text.len() == 45 && crate::text::eq_ic(text.subrange(0, 9), "urn:uuid:"@) {
        hyphenated_digits(text.subrange(9, 45))
    } else {
        None
    }
}

/// What `uuid::Uuid::parse_str` accepts, as the 128-bit value it yields: ASCII
/// text in one of the four forms whose digits are all hexadecimal, read
/// most significant digit first.
pub open spec fn spec_parse_uuid(text: Seq<char>) -> Option<u128> {
    match uuid_digits(text) {
        Some(d) => if crate::text::all_ascii(text) && forall|i: int| 0 <= i < d.len() ==> hex_value(#[trigger] d[i])
            >= 0 {
            Some(hex_number(d) as u128)
        } else {
            None
        },
        None => None,
    }
}

/// `uuid::Uuid::parse_str`, the parsed value given as a 128-bit number
/// (`Uuid::as_u128` reads the 16 bytes big-endian). Its parser dispatches
/// on the input's length in bytes; any text it accepts is ASCII, so the
/// lengths in characters that `spec_parse_uuid` checks are the same.
#[verifier::external_body]
fn parse_uuid_text(text: &str) -> (r: Option<u128>)
    ensures
        r == spec_parse_uuid(text@),
{
    uuid::Uuid::parse_str(text).ok().map(|id| id.as_u128())
}

/// Parses UUID text (any form `uuid` accepts).
pub fn parse_uuid(text: &str) -> (r: Option<u128>)
    ensures
        r == spec_parse_uuid(text@),
{
    parse_uuid_text(text)
}

pub open spec fn digit_char(d: nat) -> char {
    ((d + 48) as u32) as char
}

/// Decimal text of a natural number.
pub open spec fn decimal(n: nat) -> Seq<char>
    decreases n,
{
    if n < 10 {
        seq![digit_char(n)]
    } else {
        decimal(n / 10).push(digit_char(n % 10))
    }
}

fn digit_exec(d: u64) -> (c: char)
    requires
        d < 10,
    ensures
        c == digit_char(d as nat),
{
    let b: u8 = (d as u8) + 48;
    let c = b as char;
    proof {
        assert(c as u32 == (d + 48) as u32);
    }
    c
}

/// Decimal digits of `n`.
pub fn decimal_chars(n: u64) -> (r: Vec<char>)
    ensures
        r@ == decimal(n as nat),
{
    let mut acc: Vec<char> = Vec::new();
    let mut cur: u64 = n;
    acc.insert(0, digit_exec(cur % 10));
    proof {
        assert(acc@ =~= seq![digit_char((cur % 10) as nat)]);
    }
    while cur >= 10
        invariant
            decimal(n as nat) == decimal(cur as nat).drop_last() + acc@,
            acc@.len() > 0,
            acc@[0] == digit_char((cur % 10) as nat),
        decreases cur,
    {
        let next = cur / 10;
        let ghost old_acc = acc@;
        acc.insert(0, digit_exec(next % 10));
        proof {
            assert(decimal(cur as nat) == decimal(next as nat).push(digit_char((cur % 10) as nat)));
            assert(decimal(cur as nat).drop_last() =~= decimal(next as nat));
            if next < 10 {
                assert(decimal(next as nat) =~= seq![digit_char(next as nat)]);
                assert(decimal(next as nat).drop_last() + acc@ =~= decimal(next as nat) + old_acc);
            } else {
                assert(decimal(next as nat) == decimal((next / 10) as nat).push(
                    digit_char((next % 10) as nat),
                ));
                assert(decimal(next as nat).drop_last() + acc@ =~= decimal(next as nat) + old_acc);
            }
        }
        cur = next;
    }
    proof {
        assert(decimal(cur as nat) =~= seq![digit_char(cur as nat)]);
        assert(decimal(cur as nat).drop_last() + acc@ =~= acc@);
    }
    acc
}

} // verus!
