//! Character- and byte-level text primitives shared by the rule engine.
//!
//! Strings are handled as sequences of `char` (their Verus view) or of bytes
//! (their UTF-8 encoding), with the few std conversions behind wrappers.
use vstd::prelude::*;

verus! {

// ─── conversions between `str`, `String`, chars and bytes ──────────────────

/// The characters of `s` (`str::chars`, collected).
#[verifier::external_body]
pub(crate) fn chars_of(s: &str) -> (res: Vec<char>)
    ensures
        res@ == s@,
{
    s.chars().collect()
}

/// A `String` holding exactly `cs` (collects the characters with `FromIterator<char>`).
#[verifier::external_body]
pub(crate) fn string_of(cs: &[char]) -> (res: String)
    ensures
        res@ == cs@,
{
    cs.iter().collect()
}

/// What `String::from_utf8_lossy` makes of a byte sequence: its UTF-8 decoding,
/// with each invalid sequence replaced by U+FFFD.
pub uninterp spec fn lossy_utf8(b: Seq<u8>) -> Seq<char>;

/// `String::from_utf8_lossy(b).into_owned()`.  The contract names the result and
/// states the documented fact that valid UTF-8 is decoded without replacement.
#[verifier::external_body]
pub(crate) fn string_from_utf8_lossy(b: &[u8]) -> (res: String)
    ensures
        res@ == lossy_utf8(b@),
        vstd::utf8::valid_utf8(b@) ==> res@ == vstd::utf8::decode_utf8(b@),
{
    String::from_utf8_lossy(b).into_owned()
}

/// What `str::to_lowercase` returns (Unicode `Lowercase` mapping).
pub uninterp spec fn unicode_lowercase(s: Seq<char>) -> Seq<char>;

/// `str::to_lowercase`, on a character sequence.  The result is named, not spelled out.
#[verifier::external_body]
pub(crate) fn to_lowercase(cs: &[char]) -> (res: Vec<char>)
    ensures
        res@ == unicode_lowercase(cs@),
{
    let s: String = cs.iter().collect();
    s.to_lowercase().chars().collect()
}

/// What `str::to_uppercase` returns (Unicode `Uppercase` mapping).
pub uninterp spec fn unicode_uppercase(s: Seq<char>) -> Seq<char>;

/// `str::to_uppercase`, on a character sequence.  The result is named, not spelled out.
#[verifier::external_body]
pub(crate) fn to_uppercase(cs: &[char]) -> (res: Vec<char>)
    ensures
        res@ == unicode_uppercase(cs@),
{
    let s: String = cs.iter().collect();
    s.to_uppercase().chars().collect()
}

/// `to_lowercase` on a `str`, as a `String`.
pub fn lower_string(s: &str) -> (res: String)
    ensures
        res@ == unicode_lowercase(s@),
{
    let cs = chars_of(s);
    let l = to_lowercase(cs.as_slice());
    string_of(l.as_slice())
}

/// A `String` from a `str`.
pub fn owned(s: &str) -> (res: String)
    ensures
        res@ == s@,
{
    let cs = chars_of(s);
    string_of(cs.as_slice())
}

// ─── character classes ──────────────────────────────────────────────────────

/// Unicode `White_Space` (the set `char::is_whitespace` tests).
pub open spec fn is_ws(c: char) -> bool {
    let u = c as u32;
    ||| (0x09 <= u && u <= 0x0d)
    ||| u == 0x20
    ||| u == 0x85
    ||| u == 0xa0
    ||| u == 0x1680
    ||| (0x2000 <= u && u <= 0x200a)
    ||| u == 0x2028
    ||| u == 0x2029
    ||| u == 0x202f
    ||| u == 0x205f
    ||| u == 0x3000
}

pub fn is_whitespace(c: char) -> (r: bool)
    ensures
        r == is_ws(c),
{
    let u = c as u32;
    (0x09 <= u && u <= 0x0d) || u == 0x20 || u == 0x85 || u == 0xa0 || u == 0x1680
        || (0x2000 <= u && u <= 0x200a) || u == 0x2028 || u == 0x2029 || u == 0x202f
        || u == 0x205f || u == 0x3000
}

pub open spec fn is_ascii_upper(c: char) -> bool {
    'A' <= c && c <= 'Z'
}

/// ASCII lowercase of one character (`char::to_ascii_lowercase`).
pub open spec fn ascii_lower(c: char) -> char {
    if is_ascii_upper(c) {
        ((c as u32) + 32) as char
    } else {
        c
    }
}

pub fn to_ascii_lower(c: char) -> (r: char)
    ensures
        r == ascii_lower(c),
{
    if 'A' <= c && c <= 'Z' {
        let u = (c as u32) + 32;
        proof {
            assert(0x61 <= u <= 0x7a);
        }
        char_from_ascii(u)
    } else {
        c
    }
}

/// The character with code point `u`, for an ASCII value.
pub fn char_from_ascii(u: u32) -> (c: char)
    requires
        u < 128,
    ensures
        c == u as char,
        c as u32 == u,
{
    (u as u8) as char
}

/// `eq_ignore_ascii_case` on character sequences.
pub open spec fn eq_ignore_ascii_case(a: Seq<char>, b: Seq<char>) -> bool {
    &&& a.len() == b.len()
    &&& forall|i: int| 0 <= i < a.len() ==> ascii_lower(#[trigger] a[i]) == ascii_lower(b[i])
}

pub fn chars_eq_ignore_ascii_case(a: &[char], b: &[char]) -> (r: bool)
    ensures
        r == eq_ignore_ascii_case(a@, b@),
{
    if a.len() != b.len() {
        return false;
    }
    let mut i: usize = 0;
    while i < a.len()
        invariant
            a.len() == b.len(),
            i <= a.len(),
            forall|j: int| 0 <= j < i ==> ascii_lower(#[trigger] a@[j]) == ascii_lower(b@[j]),
        decreases a.len() - i,
    {
        if to_ascii_lower(a[i]) != to_ascii_lower(b[i]) {
            return false;
        }
        i += 1;
    }
    true
}

// ─── hex digits ─────────────────────────────────────────────────────────────

/// Value of an ASCII hex digit byte.
pub open spec fn hex_value(b: u8) -> Option<u8> {
    if 0x30 <= b && b <= 0x39 {
        Some((b - 0x30) as u8)
    } else if 0x61 <= b && b <= 0x66 {
        Some((b - 0x61 + 10) as u8)
    } else if 0x41 <= b && b <= 0x46 {
        Some((b - 0x41 + 10) as u8)
    } else {
        None
    }
}

/// Decode one hex digit.
pub fn hex(b: u8) -> (r: Option<u8>)
    ensures
        r == hex_value(b),
        r matches Some(v) ==> v < 16,
{
    if 0x30 <= b && b <= 0x39 {
        Some(b - 0x30)
    } else if 0x61 <= b && b <= 0x66 {
        Some(b - 0x61 + 10)
    } else if 0x41 <= b && b <= 0x46 {
        Some(b - 0x41 + 10)
    } else {
        None
    }
}

/// Combine two hex digits into one byte, `(h << 4) | l`.
pub fn hex_pair(h: u8, l: u8) -> (r: u8)
    requires
        h < 16,
        l < 16,
    ensures
        r == h * 16 + l,
{
    assert(h < 16 && l < 16 ==> (h << 4u8) | l == h * 16 + l) by (bit_vector);
    (h << 4u8) | l
}

// ─── sequence search ────────────────────────────────────────────────────────

/// `needle` occurs in `hay` at position `k`.
pub open spec fn occurs_at<T>(hay: Seq<T>, needle: Seq<T>, k: int) -> bool {
    &&& 0 <= k
    &&& k + needle.len() <= hay.len()
    &&& hay.subrange(k, k + needle.len()) == needle
}

/// `needle` occurs somewhere in `hay` (`str::contains`).
pub open spec fn seq_contains<T>(hay: Seq<T>, needle: Seq<T>) -> bool {
    exists|k: int| occurs_at(hay, needle, k)
}

/// Does `needle` occur at `k`?
pub fn chars_at(hay: &[char], needle: &[char], k: usize) -> (r: bool)
    ensures
        r == occurs_at(hay@, needle@, k as int),
{
    if k > hay.len() || needle.len() > hay.len() - k {
        return false;
    }
    let mut j: usize = 0;
    while j < needle.len()
        invariant
            k + needle.len() <= hay.len(),
            j <= needle.len(),
            forall|t: int| 0 <= t < j ==> hay@[k + t] == needle@[t],
        decreases needle.len() - j,
    {
        if hay[k + j] != needle[j] {
            return false;
        }
        j += 1;
    }
    assert(hay@.subrange(k as int, k + needle.len()) =~= needle@);
    true
}

/// Position of the first occurrence of `needle` at or after `from`.
pub open spec fn first_occurrence<T>(hay: Seq<T>, needle: Seq<T>, from: int) -> Option<int>
    decreases hay.len() + 1 - from,
{
    if from < 0 || from + needle.len() > hay.len() {
        None
    } else if occurs_at(hay, needle, from) {
        Some(from)
    } else {
        first_occurrence(hay, needle, from + 1)
    }
}

pub proof fn lemma_first_occurrence<T>(hay: Seq<T>, needle: Seq<T>, from: int)
    requires
        0 <= from,
    ensures
        first_occurrence(hay, needle, from) matches Some(k) ==> from <= k && occurs_at(hay, needle, k)
            && forall|j: int| from <= j < k ==> !occurs_at(hay, needle, j),
        first_occurrence(hay, needle, from) is None ==> forall|j: int|
            from <= j ==> !occurs_at(hay, needle, j),
    decreases hay.len() + 1 - from,
{
    if from + needle.len() > hay.len() {
    } else if occurs_at(hay, needle, from) {
    } else {
        lemma_first_occurrence(hay, needle, from + 1);
    }
}

/// `first_occurrence`, computed.
pub fn find_chars(hay: &[char], needle: &[char], from: usize) -> (r: Option<usize>)
    ensures
        r matches Some(k) ==> first_occurrence(hay@, needle@, from as int) == Some(k as int),
        r is None ==> first_occurrence(hay@, needle@, from as int) is None,
{
    let mut k = from;
    proof {
        lemma_first_occurrence(hay@, needle@, from as int);
    }
    while k <= hay.len() && needle.len() <= hay.len() - k
        invariant
            from <= k,
            first_occurrence(hay@, needle@, from as int) == first_occurrence(
                hay@,
                needle@,
                k as int,
            ),
        decreases hay.len() + 1 - k,
    {
        if chars_at(hay, needle, k) {
            return Some(k);
        }
        if k == hay.len() {
            assert(first_occurrence(hay@, needle@, k + 1) is None);
            return None;
        }
        k += 1;
    }
    assert(first_occurrence(hay@, needle@, k as int) is None);
    None
}

/// Whether `needle` occurs anywhere in `hay`.
pub fn contains_chars(hay: &[char], needle: &[char]) -> (r: bool)
    ensures
        r == seq_contains(hay@, needle@),
{
    let f = find_chars(hay, needle, 0);
    proof {
        lemma_first_occurrence(hay@, needle@, 0);
    }
    f.is_some()
}

/// Position of the first `c` in `s` at or after `from`.
pub open spec fn find_char_from(s: Seq<char>, c: char, from: int) -> Option<int>
    decreases s.len() - from,
{
    if from < 0 || from >= s.len() {
        None
    } else if s[from] == c {
        Some(from)
    } else {
        find_char_from(s, c, from + 1)
    }
}

pub proof fn lemma_find_char_from(s: Seq<char>, c: char, from: int)
    requires
        0 <= from,
    ensures
        find_char_from(s, c, from) matches Some(k) ==> from <= k < s.len() && s[k] == c
            && forall|j: int| from <= j < k ==> s[j] != c,
        find_char_from(s, c, from) is None ==> forall|j: int| from <= j < s.len() ==> s[j] != c,
    decreases s.len() - from,
{
    if from < s.len() && s[from] != c {
        lemma_find_char_from(s, c, from + 1);
    }
}

pub fn find_char(s: &[char], c: char, from: usize) -> (r: Option<usize>)
    ensures
        r matches Some(k) ==> find_char_from(s@, c, from as int) == Some(k as int),
        r is None ==> find_char_from(s@, c, from as int) is None,
{
    let mut k = from;
    while k < s.len()
        invariant
            from <= k,
            find_char_from(s@, c, from as int) == find_char_from(s@, c, k as int),
        decreases s.len() - k,
    {
        if s[k] == c {
            return Some(k);
        }
        k += 1;
    }
    None
}

/// Position of the last `c` in `s` before `end`.
pub open spec fn rfind_char_before(s: Seq<char>, c: char, end: int) -> Option<int>
    decreases end,
{
    if end <= 0 || end > s.len() {
        None
    } else if s[end - 1] == c {
        Some(end - 1)
    } else {
        rfind_char_before(s, c, end - 1)
    }
}

pub fn rfind_char(s: &[char], c: char, end: usize) -> (r: Option<usize>)
    requires
        end <= s.len(),
    ensures
        r matches Some(k) ==> rfind_char_before(s@, c, end as int) == Some(k as int) && k < end,
        r is None ==> rfind_char_before(s@, c, end as int) is None,
{
    let mut k = end;
    while k > 0
        invariant
            k <= end <= s.len(),
            rfind_char_before(s@, c, end as int) == rfind_char_before(s@, c, k as int),
        decreases k,
    {
        if s[k - 1] == c {
            return Some(k - 1);
        }
        k -= 1;
    }
    None
}

// ─── slicing and trimming ───────────────────────────────────────────────────

/// A copy of `s[from..to]`.
pub fn slice_chars(s: &[char], from: usize, to: usize) -> (r: Vec<char>)
    requires
        from <= to <= s.len(),
    ensures
        r@ == s@.subrange(from as int, to as int),
{
    let mut out: Vec<char> = Vec::new();
    let mut i = from;
    while i < to
        invariant
            from <= i <= to <= s.len(),
            out@ == s@.subrange(from as int, i as int),
        decreases to - i,
    {
        out.push(s[i]);
        i += 1;
        assert(out@ =~= s@.subrange(from as int, i as int));
    }
    out
}

/// Number of leading whitespace characters of `s`.
pub open spec fn ws_prefix_len(s: Seq<char>, from: int) -> int
    decreases s.len() - from,
{
    if from < 0 || from >= s.len() || !is_ws(s[from]) {
        from
    } else {
        ws_prefix_len(s, from + 1)
    }
}

/// Index just after the last non-whitespace character before `end`.
pub open spec fn ws_suffix_start(s: Seq<char>, end: int) -> int
    decreases end,
{
    if end <= 0 || end > s.len() || !is_ws(s[end - 1]) {
        end
    } else {
        ws_suffix_start(s, end - 1)
    }
}

/// `str::trim_start`.
pub open spec fn trim_start(s: Seq<char>) -> Seq<char> {
    s.subrange(ws_prefix_len(s, 0), s.len() as int)
}

/// `str::trim_end`.
pub open spec fn trim_end(s: Seq<char>) -> Seq<char> {
    s.subrange(0, ws_suffix_start(s, s.len() as int))
}

/// `str::trim`.
pub open spec fn trim(s: Seq<char>) -> Seq<char> {
    trim_end(trim_start(s))
}

pub proof fn lemma_ws_prefix_len(s: Seq<char>, from: int)
    requires
        0 <= from <= s.len(),
    ensures
        from <= ws_prefix_len(s, from) <= s.len(),
        ws_prefix_len(s, from) < s.len() ==> !is_ws(s[ws_prefix_len(s, from)]),
        forall|j: int| from <= j < ws_prefix_len(s, from) ==> is_ws(s[j]),
    decreases s.len() - from,
{
    if from < s.len() && is_ws(s[from]) {
        lemma_ws_prefix_len(s, from + 1);
    }
}

pub proof fn lemma_ws_suffix_start(s: Seq<char>, end: int)
    requires
        0 <= end <= s.len(),
    ensures
        0 <= ws_suffix_start(s, end) <= end,
    decreases end,
{
    if end > 0 && is_ws(s[end - 1]) {
        lemma_ws_suffix_start(s, end - 1);
    }
}

pub fn skip_ws(s: &[char], from: usize) -> (r: usize)
    requires
        from <= s.len(),
    ensures
        r as int == ws_prefix_len(s@, from as int),
        from <= r <= s.len(),
{
    let mut i = from;
    while i < s.len() && is_whitespace(s[i])
        invariant
            from <= i <= s.len(),
            ws_prefix_len(s@, from as int) == ws_prefix_len(s@, i as int),
        decreases s.len() - i,
    {
        i += 1;
    }
    i
}

pub fn ws_end(s: &[char], end: usize) -> (r: usize)
    requires
        end <= s.len(),
    ensures
        r as int == ws_suffix_start(s@, end as int),
        r <= end,
{
    let mut i = end;
    while i > 0 && is_whitespace(s[i - 1])
        invariant
            i <= end <= s.len(),
            ws_suffix_start(s@, end as int) == ws_suffix_start(s@, i as int),
        decreases i,
    {
        i -= 1;
    }
    i
}

pub fn trim_start_chars(s: &[char]) -> (r: Vec<char>)
    ensures
        r@ == trim_start(s@),
{
    let a = skip_ws(s, 0);
    slice_chars(s, a, s.len())
}

pub fn trim_end_chars(s: &[char]) -> (r: Vec<char>)
    ensures
        r@ == trim_end(s@),
{
    let b = ws_end(s, s.len());
    slice_chars(s, 0, b)
}

pub fn trim_chars(s: &[char]) -> (r: Vec<char>)
    ensures
        r@ == trim(s@),
{
    let t = trim_start_chars(s);
    trim_end_chars(t.as_slice())
}

/// Whether `s` starts with `p`.
pub fn starts_with_chars(s: &[char], p: &[char]) -> (r: bool)
    ensures
        r == p@.is_prefix_of(s@),
{
    let r = chars_at(s, p, 0);
    proof {
        if r {
            assert forall|i: int| 0 <= i < p@.len() implies p@[i] == s@[i] by {
                assert(s@.subrange(0, p@.len() as int)[i] == s@[i]);
            }
        } else if p@.len() <= s@.len() {
            if p@.is_prefix_of(s@) {
                assert(s@.subrange(0, p@.len() as int) =~= p@);
            }
        }
    }
    r
}

/// Whether `s` ends with `p`.
pub fn ends_with_chars(s: &[char], p: &[char]) -> (r: bool)
    ensures
        r == p@.is_suffix_of(s@),
{
    if p.len() > s.len() {
        return false;
    }
    let k = s.len() - p.len();
    let r = chars_at(s, p, k);
    proof {
        if r {
            assert forall|i: int| 0 <= i < p@.len() implies p@[i] == s@[s@.len() - p@.len() + i] by {
                assert(s@.subrange(k as int, k + p@.len())[i] == s@[k + i]);
            }
        } else {
            if p@.is_suffix_of(s@) {
                assert(s@.subrange(k as int, k + p@.len()) =~= p@);
            }
        }
    }
    r
}

/// Equality of two character slices.
pub fn chars_eq(a: &[char], b: &[char]) -> (r: bool)
    ensures
        r == (a@ == b@),
{
    if a.len() != b.len() {
        return false;
    }
    let r = chars_at(a, b, 0);
    proof {
        if r {
            assert(a@ =~= a@.subrange(0, b@.len() as int));
        } else {
            assert(a@.subrange(0, b@.len() as int) =~= a@);
        }
    }
    r
}

/// Equality of two `String`s.
pub fn string_eq(a: &String, b: &String) -> (r: bool)
    ensures
        r == (a@ == b@),
{
    a.eq(b)
}

/// `&str` equals a character sequence.
pub fn str_eq_chars(a: &str, b: &[char]) -> (r: bool)
    ensures
        r == (a@ == b@),
{
    let ac = chars_of(a);
    chars_eq(ac.as_slice(), b)
}

/// Append the characters of `s` to `out`.
pub fn push_str(out: &mut Vec<char>, s: &str)
    ensures
        final(out)@ == old(out)@ + s@,
{
    let cs = chars_of(s);
    push_chars(out, cs.as_slice());
}

/// Append `cs` to `out`.
pub fn push_chars(out: &mut Vec<char>, cs: &[char])
    ensures
        final(out)@ == old(out)@ + cs@,
{
    let mut i: usize = 0;
    while i < cs.len()
        invariant
            i <= cs.len(),
            out@ == old(out)@ + cs@.subrange(0, i as int),
        decreases cs.len() - i,
    {
        out.push(cs[i]);
        i += 1;
        assert(out@ =~= old(out)@ + cs@.subrange(0, i as int));
    }
    assert(cs@.subrange(0, cs@.len() as int) =~= cs@);
}

// ─── integers ───────────────────────────────────────────────────────────────

pub open spec fn is_digit(c: char) -> bool {
    '0' <= c && c <= '9'
}

pub open spec fn digit_value(c: char) -> int {
    (c as u32) - ('0' as u32)
}

/// Value of a (non-empty) run of decimal digits.
pub open spec fn digits_value(s: Seq<char>) -> int
    decreases s.len(),
{
    if s.len() == 0 {
        0
    } else {
        digits_value(s.drop_last()) * 10 + digit_value(s.last())
    }
}

pub open spec fn all_digits(s: Seq<char>) -> bool {
    forall|i: int| 0 <= i < s.len() ==> is_digit(#[trigger] s[i])
}

/// The integer that `str::parse` reads from `s`, before the range check of the
/// target type: an optional sign (`+`, or `-` when `signed`) and one or more
/// ASCII digits, nothing else.
pub open spec fn spec_parse_int(s: Seq<char>, signed: bool) -> Option<int> {
    if s.len() > 0 && (s[0] == '+' || (signed && s[0] == '-')) {
        let d = s.drop_first();
        if d.len() > 0 && all_digits(d) {
            Some(if s[0] == '-' { -digits_value(d) } else { digits_value(d) })
        } else {
            None
        }
    } else if s.len() > 0 && all_digits(s) {
        Some(digits_value(s))
    } else {
        None
    }
}

/// `s.parse::<i64>().ok()`.
pub open spec fn spec_parse_i64(s: Seq<char>) -> Option<i64> {
    match spec_parse_int(s, true) {
        Some(v) => if i64::MIN <= v <= i64::MAX {
            Some(v as i64)
        } else {
            None
        },
        None => None,
    }
}

/// `s.parse::<u64>().ok()` (also used for the narrower unsigned types).
pub open spec fn spec_parse_uint(s: Seq<char>, max: int) -> Option<int> {
    match spec_parse_int(s, false) {
        Some(v) => if v <= max {
            Some(v)
        } else {
            None
        },
        None => None,
    }
}

proof fn lemma_digits_nonneg(s: Seq<char>)
    requires
        all_digits(s),
    ensures
        digits_value(s) >= 0,
    decreases s.len(),
{
    if s.len() > 0 {
        lemma_digits_nonneg(s.drop_last());
    }
}

/// Accumulate the digits `s[from..]` onto a magnitude, saturating just above `limit`.
fn parse_magnitude(s: &[char], from: usize, limit: u128) -> (r: Option<u128>)
    requires
        from <= s.len(),
        limit < 0x1_0000_0000_0000_0000_0000,
    ensures
        r matches Some(v) ==> all_digits(s@.subrange(from as int, s@.len() as int)) && (v
            == digits_value(s@.subrange(from as int, s@.len() as int)) || (v == limit + 1
            && digits_value(s@.subrange(from as int, s@.len() as int)) > limit)),
        r is None ==> !all_digits(s@.subrange(from as int, s@.len() as int)),
{
    let mut acc: u128 = 0;
    let mut i = from;
    let mut over = false;
    while i < s.len()
        invariant
            from <= i <= s.len(),
            limit < 0x1_0000_0000_0000_0000_0000,
            all_digits(s@.subrange(from as int, i as int)),
            acc <= limit,
            !over ==> acc == digits_value(s@.subrange(from as int, i as int)),
            over ==> digits_value(s@.subrange(from as int, i as int)) > limit,
        decreases s.len() - i,
    {
        let c = s[i];
        if !('0' <= c && c <= '9') {
            assert(!all_digits(s@.subrange(from as int, s@.len() as int))) by {
                assert(s@.subrange(from as int, s@.len() as int)[i - from] == c);
            }
            return None;
        }
        let d = (c as u32 - '0' as u32) as u128;
        let ghost prev = s@.subrange(from as int, i as int);
        let ghost next = s@.subrange(from as int, i + 1);
        assert(next.drop_last() =~= prev);
        proof {
            lemma_digits_nonneg(prev);
        }
        if !over {
            if d > limit || acc > (limit - d) / 10 {
                over = true;
                acc = 0;
                assert(digits_value(next) > limit) by (nonlinear_arith)
                    requires
                        digits_value(next) == digits_value(prev) * 10 + d,
                        digits_value(prev) >= 0,
                        d > limit || digits_value(prev) > (limit - d) / 10,
                        d <= 9,
                        limit >= 0,
                ;
            } else {
                assert(acc * 10 + d <= limit) by (nonlinear_arith)
                    requires
                        acc <= (limit - d) / 10,
                        d <= 9,
                        limit >= 0,
                ;
                acc = acc * 10 + d;
            }
        } else {
            assert(digits_value(next) > limit) by (nonlinear_arith)
                requires
                    digits_value(next) == digits_value(prev) * 10 + d,
                    digits_value(prev) > limit,
                    d >= 0,
                    limit >= 0,
            ;
        }
        i += 1;
    }
    if over {
        Some(limit + 1)
    } else {
        Some(acc)
    }
}

/// `str::parse::<i64>`.
pub fn parse_i64(s: &[char]) -> (r: Option<i64>)
    ensures
        r == spec_parse_i64(s@),
{
    if s.len() == 0 {
        return None;
    }
    let neg = s[0] == '-';
    let signed_prefix = s[0] == '+' || s[0] == '-';
    let from: usize = if signed_prefix { 1 } else { 0 };
    if signed_prefix && s.len() == 1 {
        return None;
    }
    let limit: u128 = if neg { 9223372036854775808 } else { 9223372036854775807 };
    let m = parse_magnitude(s, from, limit);
    proof {
        assert(s@.drop_first() =~= s@.subrange(1, s@.len() as int));
        assert(s@ =~= s@.subrange(0, s@.len() as int));
    }
    match m {
        None => None,
        Some(v) => {
            if v > limit {
                None
            } else if neg {
                if v == 9223372036854775808 {
                    Some(i64::MIN)
                } else {
                    Some(-(v as i64))
                }
            } else {
                Some(v as i64)
            }
        },
    }
}

/// `str::parse` for an unsigned type whose maximum is `max`.
pub fn parse_uint(s: &[char], max: u64) -> (r: Option<u64>)
    ensures
        r matches Some(v) ==> spec_parse_uint(s@, max as int) == Some(v as int),
        r is None ==> spec_parse_uint(s@, max as int) is None,
{
    if s.len() == 0 {
        return None;
    }
    let plus = s[0] == '+';
    if plus && s.len() == 1 {
        return None;
    }
    let from: usize = if plus { 1 } else { 0 };
    let m = parse_magnitude(s, from, max as u128);
    proof {
        assert(s@.drop_first() =~= s@.subrange(1, s@.len() as int));
        assert(s@ =~= s@.subrange(0, s@.len() as int));
    }
    match m {
        None => None,
        Some(v) => {
            if v > max as u128 {
                None
            } else {
                Some(v as u64)
            }
        },
    }
}

/// Decimal digits of a natural number (no leading zeros; `0` is `"0"`).
pub open spec fn nat_digits(n: nat) -> Seq<char>
    decreases n,
{
    if n < 10 {
        seq![(('0' as u32) + n) as char]
    } else {
        nat_digits(n / 10) + seq![(('0' as u32) + (n % 10)) as char]
    }
}

/// Decimal rendering of an integer (`i64::to_string`, `usize::to_string`).
pub open spec fn int_to_decimal(v: int) -> Seq<char> {
    if v < 0 {
        seq!['-'] + nat_digits((-v) as nat)
    } else {
        nat_digits(v as nat)
    }
}

fn digit_char(d: u128) -> (c: char)
    requires
        d < 10,
    ensures
        c == (('0' as u32) + d) as char,
{
    char_from_ascii((48 + d) as u32)
}

/// Decimal digits of `n`.
pub fn u128_digits(n: u128) -> (r: Vec<char>)
    ensures
        r@ == nat_digits(n as nat),
    decreases n,
{
    if n < 10 {
        let mut v: Vec<char> = Vec::new();
        v.push(digit_char(n));
        assert(v@ =~= nat_digits(n as nat));
        v
    } else {
        let mut v = u128_digits(n / 10);
        v.push(digit_char(n % 10));
        assert(v@ =~= nat_digits(n as nat));
        v
    }
}

/// `i64::to_string`, as characters.
pub fn i64_to_decimal(v: i64) -> (r: Vec<char>)
    ensures
        r@ == int_to_decimal(v as int),
{
    if v < 0 {
        let m: u128 = (-(v as i128)) as u128;
        let d = u128_digits(m);
        let mut out: Vec<char> = Vec::new();
        out.push('-');
        push_chars(&mut out, d.as_slice());
        assert(out@ =~= int_to_decimal(v as int));
        out
    } else {
        u128_digits(v as u128)
    }
}

/// `usize::to_string`, as characters.
pub fn usize_to_decimal(v: usize) -> (r: Vec<char>)
    ensures
        r@ == int_to_decimal(v as int),
{
    u128_digits(v as u128)
}


/// The character sequences of a list of character vectors.
pub open spec fn vecs_view(v: Seq<Vec<char>>) -> Seq<Seq<char>> {
    v.map_values(|x: Vec<char>| x@)
}

// ─── splitting ──────────────────────────────────────────────────────────────

pub proof fn lemma_find_char_offset(s: Seq<char>, c: char, start: int, i: int)
    requires
        0 <= start <= i <= s.len(),
    ensures
        find_char_from(s.subrange(start, s.len() as int), c, i - start) == (match find_char_from(
            s,
            c,
            i,
        ) {
            Some(k) => Some(k - start),
            None => None::<int>,
        }),
    decreases s.len() - i,
{
    if i < s.len() {
        lemma_find_char_offset(s, c, start, i + 1);
    }
}

/// `s.split(c)`: the pieces between the occurrences of `c`.
pub open spec fn split_char(s: Seq<char>, c: char) -> Seq<Seq<char>>
    decreases s.len(),
{
    match find_char_from(s, c, 0) {
        Some(k) => {
            proof {
                lemma_find_char_from(s, c, 0);
            }
            seq![s.subrange(0, k)] + split_char(s.subrange(k + 1, s.len() as int), c)
        },
        None => seq![s],
    }
}

/// `s.split(c)`, computed.
pub fn split_chars(s: &[char], c: char) -> (r: Vec<Vec<char>>)
    ensures
        vecs_view(r@) == split_char(s@, c),
{
    let mut out: Vec<Vec<char>> = Vec::new();
    let mut start: usize = 0;
    assert(s@.subrange(0, s@.len() as int) =~= s@);
    loop
        invariant
            start <= s.len(),
            split_char(s@, c) == vecs_view(out@) + split_char(
                s@.subrange(start as int, s@.len() as int),
                c,
            ),
        decreases s.len() - start,
    {
        let ghost rest = s@.subrange(start as int, s@.len() as int);
        let ghost o0 = vecs_view(out@);
        proof {
            lemma_find_char_offset(s@, c, start as int, start as int);
            lemma_find_char_from(s@, c, start as int);
        }
        match find_char(s, c, start) {
            Some(k) => {
                let piece = slice_chars(s, start, k);
                out.push(piece);
                assert(rest.subrange(0, k - start) =~= s@.subrange(start as int, k as int));
                assert(rest.subrange(k - start + 1, rest.len() as int) =~= s@.subrange(
                    k + 1,
                    s@.len() as int,
                ));
                assert(vecs_view(out@) =~= o0.push(
                    s@.subrange(start as int, k as int),
                ));
                start = k + 1;
                assert(split_char(s@, c) =~= vecs_view(out@) + split_char(
                    s@.subrange(start as int, s@.len() as int),
                    c,
                ));
            },
            None => {
                let piece = slice_chars(s, start, s.len());
                out.push(piece);
                assert(vecs_view(out@) =~= o0.push(rest));
                assert(split_char(s@, c) =~= vecs_view(out@));
                return out;
            },
        }
    }
}

/// End of the run of non-whitespace characters starting at `i`.
pub open spec fn word_end(s: Seq<char>, i: int) -> int
    decreases s.len() - i,
{
    if i < 0 || i >= s.len() || is_ws(s[i]) {
        i
    } else {
        word_end(s, i + 1)
    }
}

pub proof fn lemma_word_end(s: Seq<char>, i: int)
    requires
        0 <= i <= s.len(),
    ensures
        i <= word_end(s, i) <= s.len(),
    decreases s.len() - i,
{
    if i < s.len() && !is_ws(s[i]) {
        lemma_word_end(s, i + 1);
    }
}

/// `s[i..].split_whitespace()`: the maximal runs of non-whitespace characters.
pub open spec fn words_from(s: Seq<char>, i: int) -> Seq<Seq<char>>
    decreases s.len() - i,
{
    if i < 0 || i > s.len() {
        seq![]
    } else {
        let a = ws_prefix_len(s, i);
        if a >= s.len() {
            seq![]
        } else {
            let e = word_end(s, a);
            proof {
                lemma_ws_prefix_len(s, i);
                lemma_word_end(s, a + 1);
            }
            seq![s.subrange(a, e)] + words_from(s, e)
        }
    }
}

/// `s.split_whitespace()`.
pub open spec fn words(s: Seq<char>) -> Seq<Seq<char>> {
    words_from(s, 0)
}

/// `s.split_whitespace()`, computed.
pub fn split_words(s: &[char]) -> (r: Vec<Vec<char>>)
    ensures
        vecs_view(r@) == words(s@),
{
    let mut out: Vec<Vec<char>> = Vec::new();
    let mut i: usize = 0;
    while i < s.len()
        invariant
            i <= s.len(),
            words_from(s@, 0) == vecs_view(out@) + words_from(s@, i as int),
        decreases s.len() - i,
    {
        let ghost i0 = i as int;
        let ghost o0 = vecs_view(out@);
        let a = skip_ws(s, i);
        if a >= s.len() {
            assert(words_from(s@, i0) == Seq::<Seq<char>>::empty());
            assert(o0 =~= o0 + words_from(s@, i0));
            return out;
        }
        let mut e = a;
        while e < s.len() && !is_whitespace(s[e])
            invariant
                a <= e <= s.len(),
                word_end(s@, a as int) == word_end(s@, e as int),
            decreases s.len() - e,
        {
            e += 1;
        }
        proof {
            lemma_word_end(s@, a + 1);
        }
        out.push(slice_chars(s, a, e));
        i = e;
        assert(words_from(s@, i0) == seq![s@.subrange(a as int, e as int)] + words_from(
            s@,
            i as int,
        ));
        assert(vecs_view(out@) =~= o0.push(s@.subrange(a as int, e as int)));
        assert(o0 + words_from(s@, i0) =~= vecs_view(out@) + words_from(
            s@,
            i as int,
        ));
    }
    assert(words_from(s@, i as int) == Seq::<Seq<char>>::empty());
    assert(vecs_view(out@) =~= vecs_view(out@) + words_from(
        s@,
        i as int,
    ));
    out
}

/// `s.strip_prefix(p)`.
pub open spec fn strip_prefix(s: Seq<char>, p: Seq<char>) -> Option<Seq<char>> {
    if p.is_prefix_of(s) {
        Some(s.subrange(p.len() as int, s.len() as int))
    } else {
        None
    }
}

pub fn strip_prefix_chars(s: &[char], p: &[char]) -> (r: Option<Vec<char>>)
    ensures
        r matches Some(v) ==> strip_prefix(s@, p@) == Some(v@),
        r is None ==> strip_prefix(s@, p@) is None,
{
    if starts_with_chars(s, p) {
        Some(slice_chars(s, p.len(), s.len()))
    } else {
        None
    }
}

/// `s.strip_suffix(p)`.
pub open spec fn strip_suffix(s: Seq<char>, p: Seq<char>) -> Option<Seq<char>> {
    if p.is_suffix_of(s) {
        Some(s.subrange(0, s.len() - p.len()))
    } else {
        None
    }
}

pub fn strip_suffix_chars(s: &[char], p: &[char]) -> (r: Option<Vec<char>>)
    ensures
        r matches Some(v) ==> strip_suffix(s@, p@) == Some(v@),
        r is None ==> strip_suffix(s@, p@) is None,
{
    if ends_with_chars(s, p) {
        Some(slice_chars(s, 0, s.len() - p.len()))
    } else {
        None
    }
}

/// `s.trim_start_matches(p)` for a non-empty `p`: every leading copy of `p` removed.
pub open spec fn trim_start_matches(s: Seq<char>, p: Seq<char>) -> Seq<char>
    decreases s.len(),
{
    if p.len() > 0 && p.is_prefix_of(s) {
        trim_start_matches(s.subrange(p.len() as int, s.len() as int), p)
    } else {
        s
    }
}

pub fn trim_start_matches_chars(s: &[char], p: &[char]) -> (r: Vec<char>)
    ensures
        r@ == trim_start_matches(s@, p@),
{
    let mut i: usize = 0;
    assert(s@.subrange(0, s@.len() as int) =~= s@);
    while p.len() > 0 && p.len() <= s.len() - i && chars_at(s, p, i)
        invariant
            i <= s.len(),
            trim_start_matches(s@, p@) == trim_start_matches(
                s@.subrange(i as int, s@.len() as int),
                p@,
            ),
        decreases s.len() - i,
    {
        let ghost rest = s@.subrange(i as int, s@.len() as int);
        assert(p@.is_prefix_of(rest)) by {
            assert forall|t: int| 0 <= t < p@.len() implies p@[t] == rest[t] by {
                assert(s@.subrange(i as int, i + p@.len())[t] == s@[i + t]);
            }
        }
        assert(rest.subrange(p@.len() as int, rest.len() as int) =~= s@.subrange(
            i + p@.len(),
            s@.len() as int,
        ));
        i += p.len();
    }
    proof {
        let rest = s@.subrange(i as int, s@.len() as int);
        if p@.len() > 0 && p@.is_prefix_of(rest) {
            assert(rest.subrange(0, p@.len() as int) =~= p@);
            assert(s@.subrange(i as int, i + p@.len()) =~= rest.subrange(0, p@.len() as int));
        }
    }
    slice_chars(s, i, s.len())
}

/// `s.trim_matches(c)`: every leading and trailing `c` removed.
pub open spec fn trim_matches(s: Seq<char>, c: char) -> Seq<char> {
    let a = lead_count(s, c, 0);
    s.subrange(a, trail_start(s, c, s.len() as int, a))
}

/// End of the run of `c` starting at `i`.
pub open spec fn lead_count(s: Seq<char>, c: char, i: int) -> int
    decreases s.len() - i,
{
    if i < 0 || i >= s.len() || s[i] != c {
        i
    } else {
        lead_count(s, c, i + 1)
    }
}

/// Start of the run of `c` that ends at `end`, not going below `lo`.
pub open spec fn trail_start(s: Seq<char>, c: char, end: int, lo: int) -> int
    decreases end - lo,
{
    if end <= lo || end > s.len() || s[end - 1] != c {
        end
    } else {
        trail_start(s, c, end - 1, lo)
    }
}

proof fn lemma_lead_count(s: Seq<char>, c: char, i: int)
    requires
        0 <= i <= s.len(),
    ensures
        i <= lead_count(s, c, i) <= s.len(),
    decreases s.len() - i,
{
    if i < s.len() && s[i] == c {
        lemma_lead_count(s, c, i + 1);
    }
}

proof fn lemma_trail_start(s: Seq<char>, c: char, end: int, lo: int)
    requires
        0 <= lo <= end <= s.len(),
    ensures
        lo <= trail_start(s, c, end, lo) <= end,
    decreases end - lo,
{
    if end > lo && s[end - 1] == c {
        lemma_trail_start(s, c, end - 1, lo);
    }
}

pub fn trim_matches_chars(s: &[char], c: char) -> (r: Vec<char>)
    ensures
        r@ == trim_matches(s@, c),
{
    let mut a: usize = 0;
    while a < s.len() && s[a] == c
        invariant
            a <= s.len(),
            lead_count(s@, c, 0) == lead_count(s@, c, a as int),
        decreases s.len() - a,
    {
        a += 1;
    }
    let mut b: usize = s.len();
    proof {
        lemma_lead_count(s@, c, 0);
    }
    while b > a && s[b - 1] == c
        invariant
            a <= b <= s.len(),
            a as int == lead_count(s@, c, 0),
            trail_start(s@, c, s@.len() as int, a as int) == trail_start(
                s@,
                c,
                b as int,
                a as int,
            ),
        decreases b,
    {
        b -= 1;
    }
    slice_chars(s, a, b)
}


/// `std::str::from_utf8(b).ok()`, owned: `Some` exactly when `b` is valid UTF-8,
/// and then its decoding.
#[verifier::external_body]
pub(crate) fn str_from_utf8(b: &[u8]) -> (r: Option<String>)
    ensures
        r is Some <==> vstd::utf8::valid_utf8(b@),
        r matches Some(s) ==> s@ == vstd::utf8::decode_utf8(b@),
{
    match std::str::from_utf8(b) {
        Ok(s) => Some(s.to_string()),
        Err(_) => None,
    }
}


/// What `format!("{:?}", s)` prints for a string: the text in double quotes, with
/// quotes, backslashes and non-printable characters escaped as Rust's `Debug` does.
pub uninterp spec fn debug_quoted(s: Seq<char>) -> Seq<char>;

/// `format!("{:?}", s)`.
#[verifier::external_body]
pub(crate) fn debug_quote(s: &str) -> (r: String)
    ensures
        r@ == debug_quoted(s@),
{
    format!("{:?}", s)
}

/// `s.split_once(c)`: the text before and after the first `c`.
pub open spec fn split_once(s: Seq<char>, c: char) -> Option<(Seq<char>, Seq<char>)> {
    match find_char_from(s, c, 0) {
        Some(k) => Some((s.subrange(0, k), s.subrange(k + 1, s.len() as int))),
        None => None,
    }
}

pub fn split_once_chars(s: &[char], c: char) -> (r: Option<(Vec<char>, Vec<char>)>)
    ensures
        match r {
            Some((a, b)) => split_once(s@, c) == Some((a@, b@)),
            None => split_once(s@, c) is None,
        },
{
    proof {
        lemma_find_char_from(s@, c, 0);
    }
    match find_char(s, c, 0) {
        Some(k) => {
            assert(find_char_from(s@, c, 0) == Some(k as int));
            assert(k < s.len());
            Some((slice_chars(s, 0, k), slice_chars(s, k + 1, s.len())))
        },
        None => None,
    }
}

} // verus!
