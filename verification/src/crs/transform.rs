//! Input transformations applied before operator matching.
//!
//! The most common chain is `t:none,t:utf8toUnicode,t:urlDecodeUni,t:removeNulls`.
use vstd::prelude::*;

use crate::crs::types::CrsTransform;
use crate::text::{
    chars_of, chars_at, contains_chars, find_char, first_occurrence, hex, hex_pair, hex_value,
    int_to_decimal, is_ascii_upper, is_whitespace, is_ws, lemma_find_char_from,
    lemma_first_occurrence, lemma_ws_prefix_len, lossy_utf8, occurs_at, push_chars, seq_contains,
    skip_ws, slice_chars, string_from_utf8_lossy, string_of, to_lowercase, trim, trim_chars,
    unicode_lowercase, usize_to_decimal, ws_prefix_len,
};

verus! {

// ─── byte helpers ───────────────────────────────────────────────────────────

/// The character whose code point is the byte's value (Latin-1 reading).
pub open spec fn byte_char(b: u8) -> char {
    b as char
}

/// The UTF-8 bytes of a character sequence.
pub open spec fn utf8(s: Seq<char>) -> Seq<u8> {
    vstd::utf8::encode_utf8(s)
}

/// Whether `u` is a Unicode scalar value (what `char::from_u32` accepts).
pub open spec fn is_char_value(u: u32) -> bool {
    u < 0xd800 || (0xe000 <= u && u <= 0x10ffff)
}

/// `char::from_u32`: `Some` exactly for Unicode scalar values.
#[verifier::external_body]
pub(crate) fn char_from_u32(u: u32) -> (r: Option<char>)
    ensures
        r == (if is_char_value(u) {
            Some(u as char)
        } else {
            None::<char>
        }),
{
    char::from_u32(u)
}

/// The UTF-8 bytes of one character.
fn encode_char(c: char) -> (r: Vec<u8>)
    ensures
        r@ == utf8(seq![c]),
{
    let one = vec![c];
    assert(one@ =~= seq![c]);
    utf8_of(one.as_slice())
}

/// The UTF-8 bytes of a character sequence.
pub fn utf8_of(s: &[char]) -> (r: Vec<u8>)
    ensures
        r@ == utf8(s@),
{
    let st = string_of(s);
    let b = st.as_str().as_bytes();
    slice_to_vec_u8(b)
}

fn slice_to_vec_u8(b: &[u8]) -> (r: Vec<u8>)
    ensures
        r@ == b@,
{
    let mut out: Vec<u8> = Vec::new();
    let mut i: usize = 0;
    while i < b.len()
        invariant
            i <= b.len(),
            out@ == b@.subrange(0, i as int),
        decreases b.len() - i,
    {
        out.push(b[i]);
        i += 1;
        assert(out@ =~= b@.subrange(0, i as int));
    }
    assert(b@.subrange(0, b@.len() as int) =~= b@);
    out
}

/// Bytes → `String`, replacing invalid UTF-8 (`String::from_utf8_lossy`), as characters.
pub fn lossy_chars(b: &[u8]) -> (r: Vec<char>)
    ensures
        r@ == lossy_utf8(b@),
{
    let s = string_from_utf8_lossy(b);
    chars_of(s.as_str())
}

/// Is `needle` at position `k` of `hay`?
fn bytes_at(hay: &[u8], needle: &[u8], k: usize) -> (r: bool)
    ensures
        r == occurs_at(hay@, needle@, k as int),
{
    if k > hay.len() || needle.len() > hay.len() - k {
        return false;
    }
    let mut j: usize = 0;
    while j < needle.len()
        invariant
            k + needle.len() <= hay.len(),
            j <= needle.len(),
            forall|t: int| 0 <= t < j ==> hay@[k + t] == needle@[t],
        decreases needle.len() - j,
    {
        if hay[k + j] != needle[j] {
            return false;
        }
        j += 1;
    }
    assert(hay@.subrange(k as int, k + needle.len()) =~= needle@);
    true
}

/// First occurrence of `needle` in `hay` at or after `from`.
fn find_bytes(hay: &[u8], needle: &[u8], from: usize) -> (r: Option<usize>)
    ensures
        r matches Some(k) ==> first_occurrence(hay@, needle@, from as int) == Some(k as int),
        r is None ==> first_occurrence(hay@, needle@, from as int) is None,
{
    let mut k = from;
    while k <= hay.len() && needle.len() <= hay.len() - k
        invariant
            from <= k,
            first_occurrence(hay@, needle@, from as int) == first_occurrence(
                hay@,
                needle@,
                k as int,
            ),
        decreases hay.len() + 1 - k,
    {
        if bytes_at(hay, needle, k) {
            return Some(k);
        }
        if k == hay.len() {
            assert(first_occurrence(hay@, needle@, k + 1) is None);
            return None;
        }
        k += 1;
    }
    assert(first_occurrence(hay@, needle@, k as int) is None);
    None
}

// ─── percent decoding ───────────────────────────────────────────────────────

/// Percent-decode `b[i..]`: each `%XX` with two hex digits becomes one byte; any
/// other byte (including `+`) is kept.
pub open spec fn url_decode_from(b: Seq<u8>, i: int) -> Seq<u8>
    decreases b.len() - i,
{
    if i < 0 || i >= b.len() {
        seq![]
    } else if b[i] == 0x25 && i + 2 < b.len() && hex_value(b[i + 1]) is Some && hex_value(
        b[i + 2],
    ) is Some {
        seq![(hex_value(b[i + 1])->0 * 16 + hex_value(b[i + 2])->0) as u8] + url_decode_from(
            b,
            i + 3,
        )
    } else {
        seq![b[i]] + url_decode_from(b, i + 1)
    }
}

/// Percent-decoding of a whole byte sequence.
pub open spec fn url_decode_bytes(b: Seq<u8>) -> Seq<u8> {
    url_decode_from(b, 0)
}

/// Percent-decode a byte sequence.
pub fn percent_decode(b: &[u8]) -> (out: Vec<u8>)
    ensures
        out@ == url_decode_bytes(b@),
{
    let mut out: Vec<u8> = Vec::new();
    let mut i: usize = 0;
    while i < b.len()
        invariant
            i <= b.len(),
            url_decode_from(b@, 0) == out@ + url_decode_from(b@, i as int),
        decreases b.len() - i,
    {
        let ghost i0 = i as int;
        let ghost o0 = out@;
        if b[i] == 0x25 && b.len() - i > 2 {
            let h = hex(b[i + 1]);
            let l = hex(b[i + 2]);
            if h.is_some() && l.is_some() {
                let v = hex_pair(h.unwrap(), l.unwrap());
                out.push(v);
                i += 3;
                assert(url_decode_from(b@, i0) == seq![v] + url_decode_from(b@, i as int));
                assert(o0 + url_decode_from(b@, i0) =~= out@ + url_decode_from(b@, i as int));
                continue;
            }
        }
        out.push(b[i]);
        i += 1;
        assert(url_decode_from(b@, i0) == seq![b@[i0]] + url_decode_from(b@, i as int));
        assert(o0 + url_decode_from(b@, i0) =~= out@ + url_decode_from(b@, i as int));
    }
    assert(out@ =~= out@ + url_decode_from(b@, i as int));
    out
}

/// The hex digit for a value below 16 (`A`-`F`, or `a`-`f` when `!upper`).
pub open spec fn hex_digit(v: int, upper: bool) -> u8 {
    if v < 10 {
        (0x30 + v) as u8
    } else if upper {
        (0x41 + v - 10) as u8
    } else {
        (0x61 + v - 10) as u8
    }
}

/// Every byte written as `%XX`.
pub open spec fn percent_encoded(b: Seq<u8>, upper: bool) -> Seq<u8> {
    Seq::new(
        3 * b.len(),
        |j: int|
            if j % 3 == 0 {
                0x25u8
            } else if j % 3 == 1 {
                hex_digit(b[j / 3] as int / 16, upper)
            } else {
                hex_digit(b[j / 3] as int % 16, upper)
            },
    )
}

proof fn lemma_hex_digit(v: int, upper: bool)
    requires
        0 <= v < 16,
    ensures
        hex_value(hex_digit(v, upper)) == Some(v as u8),
{
}

proof fn lemma_decode_encoded_from(b: Seq<u8>, upper: bool, k: int)
    requires
        0 <= k <= b.len(),
    ensures
        url_decode_from(percent_encoded(b, upper), 3 * k) == b.subrange(k, b.len() as int),
    decreases b.len() - k,
{
    let e = percent_encoded(b, upper);
    if k < b.len() {
        let j = 3 * k;
        assert(j % 3 == 0 && (j + 1) % 3 == 1 && (j + 2) % 3 == 2);
        assert((j + 1) / 3 == k && (j + 2) / 3 == k);
        let v = b[k] as int;
        assert(v / 16 * 16 + v % 16 == v);
        lemma_hex_digit(v / 16, upper);
        lemma_hex_digit(v % 16, upper);
        assert(e[j] == 0x25u8);
        assert(e[j + 1] == hex_digit(v / 16, upper));
        assert(e[j + 2] == hex_digit(v % 16, upper));
        lemma_decode_encoded_from(b, upper, k + 1);
        assert(3 * (k + 1) == j + 3);
        assert(b.subrange(k, b.len() as int) =~= seq![b[k]] + b.subrange(k + 1, b.len() as int));
    } else {
        assert(b.subrange(k, b.len() as int) =~= Seq::<u8>::empty());
    }
}

/// Percent-decoding undoes percent-encoding: every byte written as `%XX`, with
/// upper- or lowercase hex digits, decodes back to the bytes.
pub proof fn law_percent_decode_undoes_encoding(b: Seq<u8>, upper: bool)
    ensures
        url_decode_bytes(percent_encoded(b, upper)) == b,
{
    lemma_decode_encoded_from(b, upper, 0);
    assert(b.subrange(0, b.len() as int) =~= b);
}

proof fn lemma_scalar_has_no_percent(v: u32)
    requires
        v != 0x25,
    ensures
        !vstd::utf8::encode_scalar(v).contains(0x25u8),
{
    let e = vstd::utf8::encode_scalar(v);
    assert(v <= 0x7F ==> (v & 0x7F) as u8 != 0x25u8) by (bit_vector)
        requires
            v != 0x25,
    ;
    assert((0xC0u8 | ((v >> 6) & 0x1F) as u8) != 0x25u8) by (bit_vector);
    assert((0xE0u8 | ((v >> 12) & 0x0F) as u8) != 0x25u8) by (bit_vector);
    assert((0xF0u8 | ((v >> 18) & 0x7) as u8) != 0x25u8) by (bit_vector);
    assert((0x80u8 | (v & 0x3F) as u8) != 0x25u8) by (bit_vector);
    assert((0x80u8 | ((v >> 6) & 0x3F) as u8) != 0x25u8) by (bit_vector);
    assert((0x80u8 | ((v >> 12) & 0x3F) as u8) != 0x25u8) by (bit_vector);
    assert forall|i: int| 0 <= i < e.len() implies e[i] != 0x25u8 by {}
}

proof fn lemma_utf8_has_no_percent(s: Seq<char>)
    requires
        !s.contains('%'),
    ensures
        !utf8(s).contains(0x25u8),
    decreases s.len(),
{
    if s.len() > 0 {
        assert(s[0] != '%') by {
            if s[0] == '%' {
                assert(s.contains('%'));
            }
        }
        assert(s[0] as u32 != 0x25) by {
            vstd::utf8::char_u32_cast(s[0], s[0] as u32);
            vstd::utf8::char_u32_cast('%', '%' as u32);
        }
        lemma_scalar_has_no_percent(s[0] as u32);
        assert(!s.drop_first().contains('%')) by {
            if s.drop_first().contains('%') {
                let k = choose|k: int| 0 <= k < s.drop_first().len() && s.drop_first()[k] == '%';
                assert(s[k + 1] == '%');
            }
        }
        lemma_utf8_has_no_percent(s.drop_first());
        let a = vstd::utf8::encode_scalar(s[0] as u32);
        let b = utf8(s.drop_first());
        assert(utf8(s) == a + b);
        assert forall|i: int| 0 <= i < (a + b).len() implies (a + b)[i] != 0x25u8 by {
            if i < a.len() {
                assert((a + b)[i] == a[i]);
                if a[i] == 0x25u8 {
                    assert(a.contains(0x25u8));
                }
            } else {
                assert((a + b)[i] == b[i - a.len()]);
                if b[i - a.len()] == 0x25u8 {
                    assert(b.contains(0x25u8));
                }
            }
        }
    }
}

/// The text of `t` with every UTF-8 byte written as `%XX`.
pub open spec fn percent_text(t: Seq<char>, upper: bool) -> Seq<char> {
    percent_encoded(utf8(t), upper).map_values(|b: u8| b as char)
}

proof fn lemma_percent_text_utf8(t: Seq<char>, upper: bool)
    ensures
        utf8(percent_text(t, upper)) == percent_encoded(utf8(t), upper),
{
    let e = percent_encoded(utf8(t), upper);
    let c = percent_text(t, upper);
    assert forall|i: int| 0 <= i < e.len() implies e[i] < 0x80 by {
        if i % 3 != 0 {
            let v = utf8(t)[i / 3] as int;
            assert(v / 16 < 16 && v % 16 < 16);
        }
    }
    assert(vstd::utf8::is_ascii_chars(c)) by {
        assert forall|i: int| 0 <= i < c.len() implies '\0' <= #[trigger] c[i] <= '\u{7f}' by {
            assert(e[i] < 0x80);
        }
    }
    vstd::utf8::is_ascii_chars_encode_utf8(c);
    assert(utf8(c) =~= e) by {
        assert forall|i: int| 0 <= i < e.len() implies utf8(c)[i] == e[i] by {
            assert(c[i] as u8 == utf8(c)[i]);
            assert(e[i] < 0x80);
        }
    }
}

/// The text that `urlDecodeUni` makes of `s`.
pub open spec fn spec_url_decode_uni(s: Seq<char>) -> Seq<char> {
    lossy_utf8(url_decode_bytes(utf8(s)))
}

/// Percent-decode (`%XX`); `+` is left as is.  Invalid UTF-8 in the result is
/// replaced by U+FFFD.
pub fn url_decode_uni(s: &str) -> (r: String)
    ensures
        r@ == spec_url_decode_uni(s@),
        !s@.contains('%') ==> r@ == s@,
        forall|t: Seq<char>, upper: bool| s@ == #[trigger] percent_text(t, upper) ==> r@ == t,
{
    let d = percent_decode(s.as_bytes());
    proof {
        assert forall|t: Seq<char>, upper: bool| s@ == #[trigger] percent_text(t, upper) implies
            vstd::utf8::valid_utf8(d@) && vstd::utf8::decode_utf8(d@) == t by {
            lemma_percent_text_utf8(t, upper);
            law_percent_decode_undoes_encoding(utf8(t), upper);
            vstd::utf8::encode_utf8_valid_utf8(t);
            vstd::utf8::encode_utf8_decode_utf8(t);
        }
        if !s@.contains('%') {
            lemma_utf8_has_no_percent(s@);
            assert forall|j: int| 0 <= j < utf8(s@).len() implies utf8(s@)[j] != 0x25 by {
                if utf8(s@)[j] == 0x25 {
                    assert(utf8(s@).contains(0x25u8));
                }
            }
            law_url_decode_without_percent(utf8(s@), 0);
            assert(utf8(s@).subrange(0, utf8(s@).len() as int) =~= utf8(s@));
            vstd::utf8::encode_utf8_valid_utf8(s@);
            vstd::utf8::encode_utf8_decode_utf8(s@);
        }
    }
    string_from_utf8_lossy(d.as_slice())
}

fn url_decode_chars(s: &[char]) -> (r: Vec<char>)
    ensures
        r@ == spec_url_decode_uni(s@),
{
    let b = utf8_of(s);
    let d = percent_decode(b.as_slice());
    lossy_chars(d.as_slice())
}

// ─── escape sequences ───────────────────────────────────────────────────────

/// Code point of four hex digits `b[k..k+4]`, when all four are hex digits.
pub open spec fn hex4(b: Seq<u8>, k: int) -> Option<u32> {
    if hex_value(b[k]) is Some && hex_value(b[k + 1]) is Some && hex_value(b[k + 2]) is Some
        && hex_value(b[k + 3]) is Some {
        Some(
            (hex_value(b[k])->0 * 4096 + hex_value(b[k + 1])->0 * 256 + hex_value(b[k + 2])->0
                * 16 + hex_value(b[k + 3])->0) as u32,
        )
    } else {
        None
    }
}

/// ModSecurity `escapeSeqDecode` of `b[i..]`: `\n`, `\r`, `\t`, `\xHH` and
/// `\uHHHH` (to UTF-8) are decoded; anything else is kept.
pub open spec fn escape_decode_from(b: Seq<u8>, i: int) -> Seq<u8>
    decreases b.len() - i,
{
    if i < 0 || i >= b.len() {
        seq![]
    } else if b[i] == 0x5c && i + 1 < b.len() {
        let n = b[i + 1];
        if n == 0x6e {
            seq![0x0au8] + escape_decode_from(b, i + 2)
        } else if n == 0x72 {
            seq![0x0du8] + escape_decode_from(b, i + 2)
        } else if n == 0x74 {
            seq![0x09u8] + escape_decode_from(b, i + 2)
        } else if n == 0x78 && i + 3 < b.len() && hex_value(b[i + 2]) is Some && hex_value(
            b[i + 3],
        ) is Some {
            seq![(hex_value(b[i + 2])->0 * 16 + hex_value(b[i + 3])->0) as u8]
                + escape_decode_from(b, i + 4)
        } else if n == 0x75 && i + 5 < b.len() && hex4(b, i + 2) is Some && is_char_value(
            hex4(b, i + 2)->0,
        ) {
            utf8(seq![hex4(b, i + 2)->0 as char]) + escape_decode_from(b, i + 6)
        } else {
            seq![b[i]] + escape_decode_from(b, i + 1)
        }
    } else {
        seq![b[i]] + escape_decode_from(b, i + 1)
    }
}

fn hex4_exec(b: &[u8], k: usize) -> (r: Option<u32>)
    requires
        k + 4 <= b.len(),
    ensures
        r == hex4(b@, k as int),
{
    let h1 = hex(b[k]);
    let h2 = hex(b[k + 1]);
    let h3 = hex(b[k + 2]);
    let h4 = hex(b[k + 3]);
    if h1.is_some() && h2.is_some() && h3.is_some() && h4.is_some() {
        let (a, bb, c, d) = (h1.unwrap() as u32, h2.unwrap() as u32, h3.unwrap() as u32, h4.unwrap() as u32);
        Some(a * 4096 + bb * 256 + c * 16 + d)
    } else {
        None
    }
}

fn append_bytes(out: &mut Vec<u8>, b: &[u8])
    ensures
        final(out)@ == old(out)@ + b@,
{
    let mut i: usize = 0;
    while i < b.len()
        invariant
            i <= b.len(),
            out@ == old(out)@ + b@.subrange(0, i as int),
        decreases b.len() - i,
    {
        out.push(b[i]);
        i += 1;
        assert(out@ =~= old(out)@ + b@.subrange(0, i as int));
    }
    assert(b@.subrange(0, b@.len() as int) =~= b@);
}

/// Decode C-style backslash escapes in a byte sequence.
pub fn escape_decode_bytes(b: &[u8]) -> (out: Vec<u8>)
    ensures
        out@ == escape_decode_from(b@, 0),
{
    let mut out: Vec<u8> = Vec::new();
    let mut i: usize = 0;
    while i < b.len()
        invariant
            i <= b.len(),
            escape_decode_from(b@, 0) == out@ + escape_decode_from(b@, i as int),
        decreases b.len() - i,
    {
        let ghost i0 = i as int;
        let ghost o0 = out@;
        if b[i] == 0x5c && b.len() - i > 1 {
            let n = b[i + 1];
            if n == 0x6e || n == 0x72 || n == 0x74 {
                let v: u8 = if n == 0x6e {
                    0x0a
                } else if n == 0x72 {
                    0x0d
                } else {
                    0x09
                };
                out.push(v);
                i += 2;
                assert(escape_decode_from(b@, i0) == seq![v] + escape_decode_from(b@, i as int));
                assert(o0 + escape_decode_from(b@, i0) =~= out@ + escape_decode_from(
                    b@,
                    i as int,
                ));
                continue;
            }
            if n == 0x78 && b.len() - i > 3 {
                let h = hex(b[i + 2]);
                let l = hex(b[i + 3]);
                if h.is_some() && l.is_some() {
                    let v = hex_pair(h.unwrap(), l.unwrap());
                    out.push(v);
                    i += 4;
                    assert(escape_decode_from(b@, i0) == seq![v] + escape_decode_from(
                        b@,
                        i as int,
                    ));
                    assert(o0 + escape_decode_from(b@, i0) =~= out@ + escape_decode_from(
                        b@,
                        i as int,
                    ));
                    continue;
                }
            }
            if n == 0x75 && b.len() - i > 5 {
                let cp = hex4_exec(b, i + 2);
                if let Some(u) = cp {
                    let c = char_from_u32(u);
                    if let Some(ch) = c {
                        let enc = encode_char(ch);
                        append_bytes(&mut out, enc.as_slice());
                        i += 6;
                        assert(escape_decode_from(b@, i0) == enc@ + escape_decode_from(
                            b@,
                            i as int,
                        ));
                        assert(o0 + escape_decode_from(b@, i0) =~= out@ + escape_decode_from(
                            b@,
                            i as int,
                        ));
                        continue;
                    }
                }
            }
        }
        out.push(b[i]);
        i += 1;
        assert(escape_decode_from(b@, i0) == seq![b@[i0]] + escape_decode_from(b@, i as int));
        assert(o0 + escape_decode_from(b@, i0) =~= out@ + escape_decode_from(b@, i as int));
    }
    assert(out@ =~= out@ + escape_decode_from(b@, i as int));
    out
}

/// The text that `escapeSeqDecode` makes of `s`.
pub open spec fn spec_escape_seq_decode(s: Seq<char>) -> Seq<char> {
    lossy_utf8(escape_decode_from(utf8(s), 0))
}

fn escape_seq_decode(s: &[char]) -> (r: Vec<char>)
    ensures
        r@ == spec_escape_seq_decode(s@),
{
    let b = utf8_of(s);
    let d = escape_decode_bytes(b.as_slice());
    lossy_chars(d.as_slice())
}

// ─── whitespace ─────────────────────────────────────────────────────────────

/// Every run of whitespace in `s[i..]` replaced by one space (`\s+` → `" "`).
pub open spec fn compress_ws_from(s: Seq<char>, i: int) -> Seq<char>
    decreases s.len() - i,
{
    if i < 0 || i >= s.len() {
        seq![]
    } else if is_ws(s[i]) {
        let j = ws_prefix_len(s, i);
        proof {
            lemma_ws_prefix_len(s, i + 1);
        }
        seq![' '] + compress_ws_from(s, j)
    } else {
        seq![s[i]] + compress_ws_from(s, i + 1)
    }
}

fn compress_whitespace(s: &[char]) -> (r: Vec<char>)
    ensures
        r@ == compress_ws_from(s@, 0),
{
    let mut out: Vec<char> = Vec::new();
    let mut i: usize = 0;
    while i < s.len()
        invariant
            i <= s.len(),
            compress_ws_from(s@, 0) == out@ + compress_ws_from(s@, i as int),
        decreases s.len() - i,
    {
        let ghost i0 = i as int;
        let ghost o0 = out@;
        if is_whitespace(s[i]) {
            let j = skip_ws(s, i);
            proof {
                lemma_ws_prefix_len(s@, i + 1);
            }
            out.push(' ');
            i = j;
            assert(compress_ws_from(s@, i0) == seq![' '] + compress_ws_from(s@, i as int));
        } else {
            out.push(s[i]);
            i += 1;
            assert(compress_ws_from(s@, i0) == seq![s@[i0]] + compress_ws_from(s@, i as int));
        }
        assert(o0 + compress_ws_from(s@, i0) =~= out@ + compress_ws_from(s@, i as int));
    }
    assert(out@ =~= out@ + compress_ws_from(s@, i as int));
    out
}

/// `s[i..]` without its whitespace characters.
pub open spec fn remove_ws_from(s: Seq<char>, i: int) -> Seq<char>
    decreases s.len() - i,
{
    if i < 0 || i >= s.len() {
        seq![]
    } else if is_ws(s[i]) {
        remove_ws_from(s, i + 1)
    } else {
        seq![s[i]] + remove_ws_from(s, i + 1)
    }
}

fn remove_whitespace(s: &[char]) -> (r: Vec<char>)
    ensures
        r@ == remove_ws_from(s@, 0),
{
    let mut out: Vec<char> = Vec::new();
    let mut i: usize = 0;
    while i < s.len()
        invariant
            i <= s.len(),
            remove_ws_from(s@, 0) == out@ + remove_ws_from(s@, i as int),
        decreases s.len() - i,
    {
        let ghost i0 = i as int;
        let ghost o0 = out@;
        if !is_whitespace(s[i]) {
            out.push(s[i]);
        }
        i += 1;
        assert(o0 + remove_ws_from(s@, i0) =~= out@ + remove_ws_from(s@, i as int));
    }
    assert(out@ =~= out@ + remove_ws_from(s@, i as int));
    out
}

/// `s[i..]` without the character `c`.
pub open spec fn remove_char_from(s: Seq<char>, c: char, i: int) -> Seq<char>
    decreases s.len() - i,
{
    if i < 0 || i >= s.len() {
        seq![]
    } else if s[i] == c {
        remove_char_from(s, c, i + 1)
    } else {
        seq![s[i]] + remove_char_from(s, c, i + 1)
    }
}

fn remove_char(s: &[char], c: char) -> (r: Vec<char>)
    ensures
        r@ == remove_char_from(s@, c, 0),
{
    let mut out: Vec<char> = Vec::new();
    let mut i: usize = 0;
    while i < s.len()
        invariant
            i <= s.len(),
            remove_char_from(s@, c, 0) == out@ + remove_char_from(s@, c, i as int),
        decreases s.len() - i,
    {
        let ghost i0 = i as int;
        let ghost o0 = out@;
        if s[i] != c {
            out.push(s[i]);
        }
        i += 1;
        assert(o0 + remove_char_from(s@, c, i0) =~= out@ + remove_char_from(s@, c, i as int));
    }
    assert(out@ =~= out@ + remove_char_from(s@, c, i as int));
    out
}

// ─── string replacement ─────────────────────────────────────────────────────

/// `str::replace` on `s[i..]`: every non-overlapping occurrence of the (non-empty)
/// `pat`, left to right, replaced by `rep`.
pub open spec fn replace_from(s: Seq<char>, pat: Seq<char>, rep: Seq<char>, i: int) -> Seq<char>
    decreases s.len() - i,
{
    if i < 0 || i >= s.len() {
        seq![]
    } else if pat.len() > 0 && occurs_at(s, pat, i) {
        rep + replace_from(s, pat, rep, i + pat.len())
    } else {
        seq![s[i]] + replace_from(s, pat, rep, i + 1)
    }
}

/// `s.replace(pat, rep)`.
pub open spec fn replace_all(s: Seq<char>, pat: Seq<char>, rep: Seq<char>) -> Seq<char> {
    replace_from(s, pat, rep, 0)
}

/// `s.replace(pat, rep)`, computed (for a non-empty `pat`).
pub fn replace_chars(s: &[char], pat: &[char], rep: &[char]) -> (r: Vec<char>)
    requires
        pat.len() > 0,
    ensures
        r@ == replace_all(s@, pat@, rep@),
{
    let mut out: Vec<char> = Vec::new();
    let mut i: usize = 0;
    while i < s.len()
        invariant
            i <= s.len(),
            pat.len() > 0,
            replace_from(s@, pat@, rep@, 0) == out@ + replace_from(s@, pat@, rep@, i as int),
        decreases s.len() - i,
    {
        let ghost i0 = i as int;
        let ghost o0 = out@;
        if chars_at(s, pat, i) {
            push_chars(&mut out, rep);
            i += pat.len();
            assert(replace_from(s@, pat@, rep@, i0) == rep@ + replace_from(
                s@,
                pat@,
                rep@,
                i as int,
            ));
        } else {
            out.push(s[i]);
            i += 1;
            assert(replace_from(s@, pat@, rep@, i0) == seq![s@[i0]] + replace_from(
                s@,
                pat@,
                rep@,
                i as int,
            ));
        }
        assert(o0 + replace_from(s@, pat@, rep@, i0) =~= out@ + replace_from(
            s@,
            pat@,
            rep@,
            i as int,
        ));
    }
    assert(out@ =~= out@ + replace_from(s@, pat@, rep@, i as int));
    out
}

/// Replacing a pattern by a shorter one never lengthens the text, and shortens it
/// when the pattern occurs.
pub proof fn lemma_replace_len(s: Seq<char>, pat: Seq<char>, rep: Seq<char>, i: int)
    requires
        0 <= i <= s.len(),
        rep.len() < pat.len(),
    ensures
        replace_from(s, pat, rep, i).len() <= s.len() - i,
        (exists|k: int| i <= k && occurs_at(s, pat, k)) ==> replace_from(s, pat, rep, i).len()
            < s.len() - i,
    decreases s.len() - i,
{
    if i < s.len() {
        if occurs_at(s, pat, i) {
            lemma_replace_len(s, pat, rep, i + pat.len());
        } else {
            lemma_replace_len(s, pat, rep, i + 1);
            if exists|k: int| i <= k && occurs_at(s, pat, k) {
                let k = choose|k: int| i <= k && occurs_at(s, pat, k);
                assert(i + 1 <= k);
            }
        }
    }
}

/// Replace `//` by `/` until no `//` is left.
pub open spec fn collapse_slashes(s: Seq<char>) -> Seq<char>
    decreases s.len(),
{
    if seq_contains(s, seq!['/', '/']) {
        proof {
            lemma_replace_len(s, seq!['/', '/'], seq!['/'], 0);
        }
        collapse_slashes(replace_all(s, seq!['/', '/'], seq!['/']))
    } else {
        s
    }
}

/// The text that `normalizePath` makes of `s`: percent-decode, turn `../` into `/`
/// and `..\` into `\`, then collapse repeated slashes.
pub open spec fn spec_normalize_path(s: Seq<char>) -> Seq<char> {
    let d = spec_url_decode_uni(s);
    let a = replace_all(d, seq!['.', '.', '/'], seq!['/']);
    let b = replace_all(a, seq!['.', '.', '\\'], seq!['\\']);
    collapse_slashes(b)
}

fn normalize_path(s: &[char]) -> (r: Vec<char>)
    ensures
        r@ == spec_normalize_path(s@),
{
    let d = url_decode_chars(s);
    let p1 = vec!['.', '.', '/'];
    let r1 = vec!['/'];
    let a = replace_chars(d.as_slice(), p1.as_slice(), r1.as_slice());
    let p2 = vec!['.', '.', '\\'];
    let r2 = vec!['\\'];
    let b = replace_chars(a.as_slice(), p2.as_slice(), r2.as_slice());
    let dbl = vec!['/', '/'];
    let one = vec!['/'];
    assert(p1@ =~= seq!['.', '.', '/']);
    assert(r1@ =~= seq!['/']);
    assert(p2@ =~= seq!['.', '.', '\\']);
    assert(r2@ =~= seq!['\\']);
    let mut out = b;
    assert(dbl@ =~= seq!['/', '/']);
    assert(one@ =~= seq!['/']);
    while contains_chars(out.as_slice(), dbl.as_slice())
        invariant
            dbl@ == seq!['/', '/'],
            one@ == seq!['/'],
            collapse_slashes(out@) == spec_normalize_path(s@),
        decreases out@.len(),
    {
        proof {
            lemma_replace_len(out@, dbl@, one@, 0);
        }
        out = replace_chars(out.as_slice(), dbl.as_slice(), one.as_slice());
    }
    out
}

// ─── HTML entities ──────────────────────────────────────────────────────────

/// The entity replacements of `htmlEntityDecode`, applied in this order.
pub open spec fn html_entities() -> Seq<(Seq<char>, Seq<char>)> {
    seq![
        (seq!['&', 'l', 't', ';'], seq!['<']),
        (seq!['&', 'g', 't', ';'], seq!['>']),
        (seq!['&', 'a', 'm', 'p', ';'], seq!['&']),
        (seq!['&', 'q', 'u', 'o', 't', ';'], seq!['"']),
        (seq!['&', '#', 'x', '2', '7', ';'], seq!['\'']),
        (seq!['&', '#', '3', '9', ';'], seq!['\'']),
        (seq!['&', 'a', 'p', 'o', 's', ';'], seq!['\'']),
        (seq!['&', '#', 'x', '3', 'C', ';'], seq!['<']),
        (seq!['&', '#', 'x', '3', 'E', ';'], seq!['>']),
        (seq!['&', 'n', 'b', 's', 'p', ';'], seq![' ']),
    ]
}

/// Apply the first `n` replacements of `table` in order.
pub open spec fn replace_each(s: Seq<char>, table: Seq<(Seq<char>, Seq<char>)>, n: int) -> Seq<
    char,
>
    decreases n,
{
    if n <= 0 {
        s
    } else {
        let prev = replace_each(s, table, n - 1);
        replace_all(prev, table[n - 1].0, table[n - 1].1)
    }
}

/// The text that `htmlEntityDecode` makes of `s`.
pub open spec fn spec_html_entity_decode(s: Seq<char>) -> Seq<char> {
    replace_each(s, html_entities(), 10)
}

fn entity_table() -> (r: Vec<(Vec<char>, Vec<char>)>)
    ensures
        r@.len() == 10,
        forall|i: int|
            0 <= i < 10 ==> (#[trigger] r@[i]).0@ == html_entities()[i].0 && r@[i].1@
                == html_entities()[i].1 && r@[i].0@.len() > 0,
{
    let v = vec![
        (vec!['&', 'l', 't', ';'], vec!['<']),
        (vec!['&', 'g', 't', ';'], vec!['>']),
        (vec!['&', 'a', 'm', 'p', ';'], vec!['&']),
        (vec!['&', 'q', 'u', 'o', 't', ';'], vec!['"']),
        (vec!['&', '#', 'x', '2', '7', ';'], vec!['\'']),
        (vec!['&', '#', '3', '9', ';'], vec!['\'']),
        (vec!['&', 'a', 'p', 'o', 's', ';'], vec!['\'']),
        (vec!['&', '#', 'x', '3', 'C', ';'], vec!['<']),
        (vec!['&', '#', 'x', '3', 'E', ';'], vec!['>']),
        (vec!['&', 'n', 'b', 's', 'p', ';'], vec![' ']),
    ];
    proof {
        assert(v@[0].0@ =~= html_entities()[0].0);
        assert(v@[1].0@ =~= html_entities()[1].0);
        assert(v@[2].0@ =~= html_entities()[2].0);
        assert(v@[3].0@ =~= html_entities()[3].0);
        assert(v@[4].0@ =~= html_entities()[4].0);
        assert(v@[5].0@ =~= html_entities()[5].0);
        assert(v@[6].0@ =~= html_entities()[6].0);
        assert(v@[7].0@ =~= html_entities()[7].0);
        assert(v@[8].0@ =~= html_entities()[8].0);
        assert(v@[9].0@ =~= html_entities()[9].0);
        assert(v@[0].1@ =~= html_entities()[0].1);
        assert(v@[1].1@ =~= html_entities()[1].1);
        assert(v@[2].1@ =~= html_entities()[2].1);
        assert(v@[3].1@ =~= html_entities()[3].1);
        assert(v@[4].1@ =~= html_entities()[4].1);
        assert(v@[5].1@ =~= html_entities()[5].1);
        assert(v@[6].1@ =~= html_entities()[6].1);
        assert(v@[7].1@ =~= html_entities()[7].1);
        assert(v@[8].1@ =~= html_entities()[8].1);
        assert(v@[9].1@ =~= html_entities()[9].1);
    }
    v
}

fn html_entity_decode(s: &[char]) -> (r: Vec<char>)
    ensures
        r@ == spec_html_entity_decode(s@),
{
    let table = entity_table();
    let mut out = slice_chars(s, 0, s.len());
    assert(s@.subrange(0, s@.len() as int) =~= s@);
    assert(out@ == replace_each(s@, html_entities(), 0));
    let mut k: usize = 0;
    while k < table.len()
        invariant
            table@.len() == 10,
            k <= 10,
            forall|i: int|
                0 <= i < 10 ==> (#[trigger] table@[i]).0@ == html_entities()[i].0 && table@[i].1@
                    == html_entities()[i].1 && table@[i].0@.len() > 0,
            out@ == replace_each(s@, html_entities(), k as int),
        decreases 10 - k,
    {
        let t = &table[k];
        assert(table@[k as int].0@.len() > 0);
        out = replace_chars(out.as_slice(), t.0.as_slice(), t.1.as_slice());
        k += 1;
    }
    out
}

// ─── JavaScript escapes ─────────────────────────────────────────────────────

/// `jsDecode` of `b[i..]`, producing characters: `\xHH` and `\uHHHH` become the
/// character with that code point, `\n`, `\r`, `\t` their control character, and
/// every other byte the character with that code point (Latin-1 reading).
pub open spec fn js_decode_from(b: Seq<u8>, i: int) -> Seq<char>
    decreases b.len() - i,
{
    if i < 0 || i >= b.len() {
        seq![]
    } else if b[i] == 0x5c && i + 1 < b.len() && b[i + 1] == 0x78 && i + 3 < b.len()
        && hex_value(b[i + 2]) is Some && hex_value(b[i + 3]) is Some {
        seq![byte_char((hex_value(b[i + 2])->0 * 16 + hex_value(b[i + 3])->0) as u8)]
            + js_decode_from(b, i + 4)
    } else if b[i] == 0x5c && i + 1 < b.len() && b[i + 1] == 0x75 && i + 5 < b.len() && hex4(
        b,
        i + 2,
    ) is Some && is_char_value(hex4(b, i + 2)->0) {
        seq![hex4(b, i + 2)->0 as char] + js_decode_from(b, i + 6)
    } else if b[i] == 0x5c && i + 1 < b.len() && b[i + 1] == 0x6e {
        seq!['\n'] + js_decode_from(b, i + 2)
    } else if b[i] == 0x5c && i + 1 < b.len() && b[i + 1] == 0x72 {
        seq!['\r'] + js_decode_from(b, i + 2)
    } else if b[i] == 0x5c && i + 1 < b.len() && b[i + 1] == 0x74 {
        seq!['\t'] + js_decode_from(b, i + 2)
    } else {
        seq![byte_char(b[i])] + js_decode_from(b, i + 1)
    }
}

fn js_decode_bytes(b: &[u8]) -> (out: Vec<char>)
    ensures
        out@ == js_decode_from(b@, 0),
{
    let mut out: Vec<char> = Vec::new();
    let mut i: usize = 0;
    while i < b.len()
        invariant
            i <= b.len(),
            js_decode_from(b@, 0) == out@ + js_decode_from(b@, i as int),
        decreases b.len() - i,
    {
        let ghost i0 = i as int;
        let ghost o0 = out@;
        if b[i] == 0x5c && b.len() - i > 1 {
            let n = b[i + 1];
            if n == 0x78 && b.len() - i > 3 {
                let h = hex(b[i + 2]);
                let l = hex(b[i + 3]);
                if h.is_some() && l.is_some() {
                    let v = hex_pair(h.unwrap(), l.unwrap());
                    out.push(v as char);
                    i += 4;
                    assert(js_decode_from(b@, i0) == seq![byte_char(v)] + js_decode_from(
                        b@,
                        i as int,
                    ));
                    assert(o0 + js_decode_from(b@, i0) =~= out@ + js_decode_from(b@, i as int));
                    continue;
                }
            }
            if n == 0x75 && b.len() - i > 5 {
                let cp = hex4_exec(b, i + 2);
                if let Some(u) = cp {
                    if let Some(ch) = char_from_u32(u) {
                        out.push(ch);
                        i += 6;
                        assert(js_decode_from(b@, i0) == seq![ch] + js_decode_from(b@, i as int));
                        assert(o0 + js_decode_from(b@, i0) =~= out@ + js_decode_from(
                            b@,
                            i as int,
                        ));
                        continue;
                    }
                }
            }
            if n == 0x6e || n == 0x72 || n == 0x74 {
                let c = if n == 0x6e {
                    '\n'
                } else if n == 0x72 {
                    '\r'
                } else {
                    '\t'
                };
                out.push(c);
                i += 2;
                assert(js_decode_from(b@, i0) == seq![c] + js_decode_from(b@, i as int));
                assert(o0 + js_decode_from(b@, i0) =~= out@ + js_decode_from(b@, i as int));
                continue;
            }
        }
        out.push(b[i] as char);
        i += 1;
        assert(js_decode_from(b@, i0) == seq![byte_char(b@[i0])] + js_decode_from(b@, i as int));
        assert(o0 + js_decode_from(b@, i0) =~= out@ + js_decode_from(b@, i as int));
    }
    assert(out@ =~= out@ + js_decode_from(b@, i as int));
    out
}

/// The text that `jsDecode` makes of `s`.
pub open spec fn spec_js_decode(s: Seq<char>) -> Seq<char> {
    js_decode_from(utf8(s), 0)
}

proof fn lemma_js_decode_shift(p: Seq<u8>, b: Seq<u8>, k: int)
    requires
        0 <= k,
    ensures
        js_decode_from(p + b, k + p.len()) == js_decode_from(b, k),
    decreases b.len() - k,
{
    let q = p + b;
    let n = p.len() as int;
    if k < b.len() {
        assert forall|j: int| 0 <= j < b.len() implies #[trigger] q[n + j] == b[j] by {}
        assert(q[n + k] == b[k]);
        if k + 1 < b.len() {
            assert(q[n + k + 1] == b[k + 1]);
        }
        if k + 3 < b.len() {
            assert(q[n + k + 2] == b[k + 2]);
            assert(q[n + k + 3] == b[k + 3]);
        }
        if k + 5 < b.len() {
            assert(q[n + k + 4] == b[k + 4]);
            assert(q[n + k + 5] == b[k + 5]);
            assert(hex4(q, n + k + 2) == hex4(b, k + 2));
        }
        if k + 1 <= b.len() {
            lemma_js_decode_shift(p, b, k + 1);
        }
        if k + 2 <= b.len() {
            lemma_js_decode_shift(p, b, k + 2);
        }
        if k + 4 <= b.len() {
            lemma_js_decode_shift(p, b, k + 4);
        }
        if k + 6 <= b.len() {
            lemma_js_decode_shift(p, b, k + 6);
        }
    }
}

proof fn lemma_utf8_ascii(c: char)
    requires
        (c as u32) < 0x80,
    ensures
        utf8(seq![c]) == seq![c as u8],
{
    let u = c as u32;
    assert((u & 0x7f) as u8 == u as u8) by (bit_vector)
        requires
            u < 0x80,
    ;
    assert(seq![c].drop_first() =~= Seq::<char>::empty());
    assert(vstd::utf8::encode_utf8(Seq::<char>::empty()) =~= Seq::<u8>::empty());
    assert(utf8(seq![c]) =~= seq![c as u8]);
}

proof fn lemma_utf8_append(a: Seq<char>, b: Seq<char>)
    ensures
        utf8(a + b) == utf8(a) + utf8(b),
    decreases a.len(),
{
    if a.len() == 0 {
        assert(a + b =~= b);
        assert(utf8(a) =~= Seq::<u8>::empty());
        assert(utf8(a) + utf8(b) =~= utf8(b));
    } else {
        assert((a + b).drop_first() =~= a.drop_first() + b);
        assert((a + b)[0] == a[0]);
        lemma_utf8_append(a.drop_first(), b);
        assert(utf8(a + b) =~= utf8(a) + utf8(b));
    }
}

/// `jsDecode` turns `\xHH` into the character whose code point is sixteen times
/// the value of the first hex digit plus the value of the second (so `\x3c` is
/// `<`), and goes on decoding what follows it as a text of its own.
pub proof fn law_js_decode_hex_escape(h: char, l: char, rest: Seq<char>)
    requires
        (h as u32) < 0x80,
        (l as u32) < 0x80,
        hex_value(h as u8) is Some,
        hex_value(l as u8) is Some,
    ensures
        spec_js_decode(seq!['\\', 'x', h, l] + rest) == seq![
            ((hex_value(h as u8)->0 * 16 + hex_value(l as u8)->0) as u8) as char,
        ] + spec_js_decode(rest),
{
    let e = seq!['\\', 'x', h, l];
    lemma_utf8_ascii('\\');
    lemma_utf8_ascii('x');
    lemma_utf8_ascii(h);
    lemma_utf8_ascii(l);
    assert(e =~= seq!['\\'] + seq!['x'] + seq![h] + seq![l]);
    lemma_utf8_append(seq!['\\'] + seq!['x'] + seq![h], seq![l]);
    lemma_utf8_append(seq!['\\'] + seq!['x'], seq![h]);
    lemma_utf8_append(seq!['\\'], seq!['x']);
    lemma_utf8_append(e, rest);
    let pb = utf8(e);
    assert(pb =~= seq![0x5cu8, 0x78u8, h as u8, l as u8]);
    let b = pb + utf8(rest);
    assert(b[0] == 0x5c && b[1] == 0x78 && b[2] == h as u8 && b[3] == l as u8);
    lemma_js_decode_shift(pb, utf8(rest), 0);
    assert(js_decode_from(b, 4) == js_decode_from(utf8(rest), 0));
}

fn js_decode(s: &[char]) -> (r: Vec<char>)
    ensures
        r@ == spec_js_decode(s@),
{
    let b = utf8_of(s);
    js_decode_bytes(b.as_slice())
}

// ─── Base64 ─────────────────────────────────────────────────────────────────

/// Value of a standard Base64 alphabet byte, or -1.
pub open spec fn b64_value(x: u8) -> int {
    if 0x41 <= x && x <= 0x5a {
        x - 0x41
    } else if 0x61 <= x && x <= 0x7a {
        x - 0x61 + 26
    } else if 0x30 <= x && x <= 0x39 {
        x - 0x30 + 52
    } else if x == 0x2b {
        62
    } else if x == 0x2f {
        63
    } else {
        -1
    }
}

fn b64_val(x: u8) -> (r: i8)
    ensures
        r == b64_value(x),
{
    if 0x41 <= x && x <= 0x5a {
        (x - 0x41) as i8
    } else if 0x61 <= x && x <= 0x7a {
        (x - 0x61 + 26) as i8
    } else if 0x30 <= x && x <= 0x39 {
        (x - 0x30 + 52) as i8
    } else if x == 0x2b {
        62
    } else if x == 0x2f {
        63
    } else {
        -1
    }
}

/// The bytes of `b` that are Base64 alphabet characters or `=`, in order.
pub open spec fn b64_clean(b: Seq<u8>) -> Seq<u8>
    decreases b.len(),
{
    if b.len() == 0 {
        seq![]
    } else {
        let x = b.last();
        b64_clean(b.drop_last()) + (if b64_value(x) >= 0 || x == 0x3d {
            seq![x]
        } else {
            seq![]
        })
    }
}

/// Decode 4-byte groups of a cleaned Base64 text from `i`, stopping at the first
/// group whose first or second byte is not an alphabet character.
pub open spec fn b64_groups(c: Seq<u8>, i: int) -> Seq<u8>
    decreases c.len() - i,
{
    if i < 0 || i + 3 >= c.len() {
        seq![]
    } else {
        let a = b64_value(c[i]);
        let b = b64_value(c[i + 1]);
        let x = b64_value(c[i + 2]);
        let d = b64_value(c[i + 3]);
        if a < 0 || b < 0 {
            seq![]
        } else {
            let first = seq![(a * 4 + b / 16) as u8];
            let second = if x >= 0 {
                seq![((b % 16) * 16 + x / 4) as u8]
            } else {
                seq![]
            };
            let third = if x >= 0 && d >= 0 {
                seq![((x % 4) * 64 + d) as u8]
            } else {
                seq![]
            };
            first + second + third + b64_groups(c, i + 4)
        }
    }
}

/// The text that `base64Decode` makes of `s`.
pub open spec fn spec_base64_decode(s: Seq<char>) -> Seq<char> {
    lossy_utf8(b64_groups(b64_clean(utf8(s)), 0))
}

fn b64_clean_exec(b: &[u8]) -> (r: Vec<u8>)
    ensures
        r@ == b64_clean(b@),
{
    let mut out: Vec<u8> = Vec::new();
    let mut i: usize = 0;
    while i < b.len()
        invariant
            i <= b.len(),
            out@ == b64_clean(b@.subrange(0, i as int)),
        decreases b.len() - i,
    {
        let x = b[i];
        assert(b@.subrange(0, i + 1).drop_last() =~= b@.subrange(0, i as int));
        if b64_val(x) >= 0 || x == 0x3d {
            out.push(x);
        }
        i += 1;
        assert(out@ =~= b64_clean(b@.subrange(0, i as int)));
    }
    assert(b@.subrange(0, b@.len() as int) =~= b@);
    out
}

fn b64_byte1(a: i8, b: i8) -> (r: u8)
    requires
        0 <= a < 64,
        0 <= b < 64,
    ensures
        r == (a * 4 + b / 16) as u8,
{
    let (a, b) = (a as u8, b as u8);
    assert(a < 64 && b < 64 ==> (a << 2u8) | ((b & 0x30) >> 4u8) == a * 4 + b / 16)
        by (bit_vector);
    (a << 2u8) | ((b & 0x30) >> 4u8)
}

fn b64_byte2(b: i8, c: i8) -> (r: u8)
    requires
        0 <= b < 64,
        0 <= c < 64,
    ensures
        r == ((b % 16) * 16 + c / 4) as u8,
{
    let (b, c) = (b as u8, c as u8);
    assert(b < 64 && c < 64 ==> ((b & 0x0f) << 4u8) | ((c & 0x3c) >> 2u8) == (b % 16) * 16 + c / 4)
        by (bit_vector);
    ((b & 0x0f) << 4u8) | ((c & 0x3c) >> 2u8)
}

fn b64_byte3(c: i8, d: i8) -> (r: u8)
    requires
        0 <= c < 64,
        0 <= d < 64,
    ensures
        r == ((c % 4) * 64 + d) as u8,
{
    let (c, d) = (c as u8, d as u8);
    assert(c < 64 && d < 64 ==> ((c & 0x03) << 6u8) | d == (c % 4) * 64 + d) by (bit_vector);
    ((c & 0x03) << 6u8) | d
}

fn b64_decode_bytes(clean: &[u8]) -> (out: Vec<u8>)
    ensures
        out@ == b64_groups(clean@, 0),
{
    let mut out: Vec<u8> = Vec::new();
    let mut i: usize = 0;
    while i < clean.len() && clean.len() - i > 3
        invariant
            i <= clean.len(),
            b64_groups(clean@, 0) == out@ + b64_groups(clean@, i as int),
        decreases clean.len() - i,
    {
        let ghost i0 = i as int;
        let ghost o0 = out@;
        let a = b64_val(clean[i]);
        let b = b64_val(clean[i + 1]);
        let c = b64_val(clean[i + 2]);
        let d = b64_val(clean[i + 3]);
        if a < 0 || b < 0 {
            assert(b64_groups(clean@, i0) == Seq::<u8>::empty());
            assert(out@ =~= out@ + b64_groups(clean@, i0));
            return out;
        }
        out.push(b64_byte1(a, b));
        if c >= 0 {
            out.push(b64_byte2(b, c));
            if d >= 0 {
                out.push(b64_byte3(c, d));
            }
        }
        i += 4;
        assert(o0 + b64_groups(clean@, i0) =~= out@ + b64_groups(clean@, i as int));
    }
    assert(b64_groups(clean@, i as int) == Seq::<u8>::empty());
    assert(out@ =~= out@ + b64_groups(clean@, i as int));
    out
}

fn base64_decode(s: &[char]) -> (r: Vec<char>)
    ensures
        r@ == spec_base64_decode(s@),
{
    let b = utf8_of(s);
    let clean = b64_clean_exec(b.as_slice());
    let d = b64_decode_bytes(clean.as_slice());
    lossy_chars(d.as_slice())
}

// ─── comments ───────────────────────────────────────────────────────────────

/// Index of the first `\n` in `b` at or after `i`, or the length.
pub open spec fn line_end(b: Seq<u8>, i: int) -> int {
    match first_occurrence(b, seq![0x0au8], i) {
        Some(k) => k,
        None => b.len() as int,
    }
}

/// `replaceComments` of `b[i..]`, producing characters: a `/* ... */` comment is
/// dropped (an unterminated one drops the rest), a `--` comment is dropped up to
/// the end of the line, and every other byte becomes the character with that
/// code point.
pub open spec fn replace_comments_from(b: Seq<u8>, i: int) -> Seq<char>
    decreases b.len() - i,
{
    if i < 0 || i >= b.len() {
        seq![]
    } else if b[i] == 0x2f && i + 1 < b.len() && b[i + 1] == 0x2a {
        proof {
            lemma_first_occurrence(b, seq![0x2au8, 0x2fu8], i + 2);
        }
        match first_occurrence(b, seq![0x2au8, 0x2fu8], i + 2) {
            Some(e) => replace_comments_from(b, e + 2),
            None => seq![],
        }
    } else if b[i] == 0x2d && i + 1 < b.len() && b[i + 1] == 0x2d {
        proof {
            lemma_first_occurrence(b, seq![0x0au8], i);
            if first_occurrence(b, seq![0x0au8], i) == Some(i) {
                assert(b.subrange(i, i + 1)[0] == b[i]);
            }
        }
        replace_comments_from(b, line_end(b, i))
    } else {
        seq![byte_char(b[i])] + replace_comments_from(b, i + 1)
    }
}

/// The text that `replaceComments` makes of `s`.
pub open spec fn spec_replace_comments(s: Seq<char>) -> Seq<char> {
    replace_comments_from(utf8(s), 0)
}

fn replace_comments_bytes(b: &[u8]) -> (out: Vec<char>)
    ensures
        out@ == replace_comments_from(b@, 0),
{
    let mut out: Vec<char> = Vec::new();
    let mut i: usize = 0;
    let close: Vec<u8> = vec![0x2a, 0x2f];
    let nl: Vec<u8> = vec![0x0a];
    assert(close@ =~= seq![0x2au8, 0x2fu8]);
    assert(nl@ =~= seq![0x0au8]);
    while i < b.len()
        invariant
            i <= b.len(),
            close@ == seq![0x2au8, 0x2fu8],
            nl@ == seq![0x0au8],
            replace_comments_from(b@, 0) == out@ + replace_comments_from(b@, i as int),
        decreases b.len() - i,
    {
        let ghost i0 = i as int;
        let ghost o0 = out@;
        if b[i] == 0x2f && b.len() - i > 1 && b[i + 1] == 0x2a {
            proof {
                lemma_first_occurrence(b@, close@, i + 2);
            }
            match find_bytes(b, close.as_slice(), i + 2) {
                Some(e) => {
                    i = e + 2;
                },
                None => {
                    assert(replace_comments_from(b@, i0) == Seq::<char>::empty());
                    assert(out@ =~= out@ + replace_comments_from(b@, i0));
                    return out;
                },
            }
            assert(replace_comments_from(b@, i0) == replace_comments_from(b@, i as int));
        } else if b[i] == 0x2d && b.len() - i > 1 && b[i + 1] == 0x2d {
            let mut j = i;
            while j < b.len() && b[j] != 0x0a
                invariant
                    i <= j <= b.len(),
                    forall|t: int| i <= t < j ==> b@[t] != 0x0a,
                decreases b.len() - j,
            {
                j += 1;
            }
            proof {
                lemma_first_occurrence(b@, nl@, i as int);
                if j < b.len() {
                    assert(occurs_at(b@, nl@, j as int)) by {
                        assert(b@.subrange(j as int, j + 1) =~= nl@);
                    }
                }
                assert forall|t: int| i <= t < j implies !occurs_at(b@, nl@, t) by {
                    if occurs_at(b@, nl@, t) {
                        assert(b@.subrange(t, t + 1)[0] == b@[t]);
                    }
                }
                assert(line_end(b@, i as int) == j);
            }
            i = j;
            assert(replace_comments_from(b@, i0) == replace_comments_from(b@, i as int));
        } else {
            out.push(b[i] as char);
            i += 1;
            assert(replace_comments_from(b@, i0) == seq![byte_char(b@[i0])]
                + replace_comments_from(b@, i as int));
        }
        assert(o0 + replace_comments_from(b@, i0) =~= out@ + replace_comments_from(
            b@,
            i as int,
        ));
    }
    assert(out@ =~= out@ + replace_comments_from(b@, i as int));
    out
}

fn replace_comments(s: &[char]) -> (r: Vec<char>)
    ensures
        r@ == spec_replace_comments(s@),
{
    let b = utf8_of(s);
    replace_comments_bytes(b.as_slice())
}

// ─── the transformation pipeline ────────────────────────────────────────────

pub open spec fn has_ascii_upper(s: Seq<char>) -> bool {
    exists|i: int| 0 <= i < s.len() && is_ascii_upper(#[trigger] s[i])
}

/// What one transformation makes of a value.
pub open spec fn apply_transform(t: CrsTransform, s: Seq<char>) -> Seq<char> {
    match t {
        CrsTransform::Utf8ToUnicode => s,
        CrsTransform::CssDecode => s,
        CrsTransform::RemoveNulls => remove_char_from(s, '\0', 0),
        CrsTransform::Trim => trim(s),
        CrsTransform::Lowercase => if has_ascii_upper(s) {
            unicode_lowercase(s)
        } else {
            s
        },
        CrsTransform::UrlDecodeUni => if s.contains('%') {
            spec_url_decode_uni(s)
        } else {
            s
        },
        CrsTransform::HtmlEntityDecode => if s.contains('&') {
            spec_html_entity_decode(s)
        } else {
            s
        },
        CrsTransform::ReplaceComments => if !seq_contains(s, seq!['/', '*']) && !seq_contains(
            s,
            seq!['-', '-'],
        ) {
            s
        } else {
            spec_replace_comments(s)
        },
        CrsTransform::CompressWhitespace => compress_ws_from(s, 0),
        CrsTransform::NormalizePath => spec_normalize_path(s),
        CrsTransform::JsDecode => spec_js_decode(s),
        CrsTransform::Base64Decode => spec_base64_decode(s),
        CrsTransform::RemoveWhitespace => remove_ws_from(s, 0),
        CrsTransform::Length => int_to_decimal(s.len() as int),
        CrsTransform::EscapeSeqDecode => spec_escape_seq_decode(s),
    }
}

/// Apply the transformations in order.
pub open spec fn apply_all(s: Seq<char>, ts: Seq<CrsTransform>) -> Seq<char>
    decreases ts.len(),
{
    if ts.len() == 0 {
        s
    } else {
        apply_transform(ts.last(), apply_all(s, ts.drop_last()))
    }
}

fn contains_char(s: &[char], c: char) -> (r: bool)
    ensures
        r == s@.contains(c),
{
    let f = find_char(s, c, 0);
    proof {
        lemma_find_char_from(s@, c, 0);
        if f is None {
            assert(forall|j: int| 0 <= j < s@.len() ==> s@[j] != c);
        } else {
            assert(s@[f->0 as int] == c);
        }
    }
    f.is_some()
}

fn any_ascii_upper(s: &[char]) -> (r: bool)
    ensures
        r == has_ascii_upper(s@),
{
    let mut i: usize = 0;
    while i < s.len()
        invariant
            i <= s.len(),
            forall|j: int| 0 <= j < i ==> !is_ascii_upper(#[trigger] s@[j]),
        decreases s.len() - i,
    {
        if 'A' <= s[i] && s[i] <= 'Z' {
            return true;
        }
        i += 1;
    }
    false
}

/// One transformation.
pub fn apply_one(t: CrsTransform, s: &[char]) -> (r: Vec<char>)
    ensures
        r@ == apply_transform(t, s@),
{
    match t {
        CrsTransform::Utf8ToUnicode | CrsTransform::CssDecode => {
            let r = slice_chars(s, 0, s.len());
            assert(s@.subrange(0, s@.len() as int) =~= s@);
            r
        },
        CrsTransform::RemoveNulls => remove_char(s, '\0'),
        CrsTransform::Trim => trim_chars(s),
        CrsTransform::Lowercase => {
            if any_ascii_upper(s) {
                to_lowercase(s)
            } else {
                let r = slice_chars(s, 0, s.len());
                assert(s@.subrange(0, s@.len() as int) =~= s@);
                r
            }
        },
        CrsTransform::UrlDecodeUni => {
            if contains_char(s, '%') {
                url_decode_chars(s)
            } else {
                let r = slice_chars(s, 0, s.len());
                assert(s@.subrange(0, s@.len() as int) =~= s@);
                r
            }
        },
        CrsTransform::HtmlEntityDecode => {
            if contains_char(s, '&') {
                html_entity_decode(s)
            } else {
                let r = slice_chars(s, 0, s.len());
                assert(s@.subrange(0, s@.len() as int) =~= s@);
                r
            }
        },
        CrsTransform::ReplaceComments => {
            let open = vec!['/', '*'];
            let dash = vec!['-', '-'];
            assert(open@ =~= seq!['/', '*']);
            assert(dash@ =~= seq!['-', '-']);
            if !contains_chars(s, open.as_slice()) && !contains_chars(s, dash.as_slice()) {
                let r = slice_chars(s, 0, s.len());
                assert(s@.subrange(0, s@.len() as int) =~= s@);
                r
            } else {
                replace_comments(s)
            }
        },
        CrsTransform::CompressWhitespace => compress_whitespace(s),
        CrsTransform::NormalizePath => normalize_path(s),
        CrsTransform::JsDecode => js_decode(s),
        CrsTransform::Base64Decode => base64_decode(s),
        CrsTransform::RemoveWhitespace => remove_whitespace(s),
        CrsTransform::Length => usize_to_decimal(s.len()),
        CrsTransform::EscapeSeqDecode => escape_seq_decode(s),
    }
}

/// Apply each transformation in sequence and return the result.
pub fn apply_transforms(s: &str, transforms: &[CrsTransform]) -> (r: String)
    ensures
        r@ == apply_all(s@, transforms@),
{
    let mut cur = chars_of(s);
    let mut k: usize = 0;
    while k < transforms.len()
        invariant
            k <= transforms.len(),
            cur@ == apply_all(s@, transforms@.subrange(0, k as int)),
        decreases transforms.len() - k,
    {
        let next = apply_one(transforms[k], cur.as_slice());
        assert(transforms@.subrange(0, k + 1).drop_last() =~= transforms@.subrange(0, k as int));
        cur = next;
        k += 1;
    }
    assert(transforms@.subrange(0, transforms@.len() as int) =~= transforms@);
    string_of(cur.as_slice())
}

/// Transforming with no transformations gives the value back.
pub proof fn law_no_transforms_is_identity(s: Seq<char>)
    ensures
        apply_all(s, Seq::<CrsTransform>::empty()) == s,
{
}

/// Transforming with `a` then `b` is transforming with `a + b`.
pub proof fn law_transforms_compose(s: Seq<char>, a: Seq<CrsTransform>, b: Seq<CrsTransform>)
    ensures
        apply_all(apply_all(s, a), b) == apply_all(s, a + b),
    decreases b.len(),
{
    if b.len() == 0 {
        assert(a + b =~= a);
    } else {
        law_transforms_compose(s, a, b.drop_last());
        assert((a + b).drop_last() =~= a + b.drop_last());
        assert((a + b).last() == b.last());
    }
}

/// Percent-decoding leaves a value without `%` unchanged.
pub proof fn law_url_decode_without_percent(b: Seq<u8>, i: int)
    requires
        0 <= i <= b.len(),
        forall|j: int| i <= j < b.len() ==> b[j] != 0x25,
    ensures
        url_decode_from(b, i) == b.subrange(i, b.len() as int),
    decreases b.len() - i,
{
    if i < b.len() {
        law_url_decode_without_percent(b, i + 1);
        assert(b.subrange(i, b.len() as int) =~= seq![b[i]] + b.subrange(i + 1, b.len() as int));
    } else {
        assert(b.subrange(i, b.len() as int) =~= Seq::<u8>::empty());
    }
}

} // verus!
