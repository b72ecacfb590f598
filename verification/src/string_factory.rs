//! Content fingerprinting (md5, base64, pinyin) and the string helpers that
//! the clipboard sampler and the search index rely on.

use vstd::prelude::*;

verus! {

// ---------------------------------------------------------------------------
// Fingerprints: md5 as a lowercase hex string.
// ---------------------------------------------------------------------------

/// The lowercase hex md5 digest of a string's UTF-8 bytes, as computed by
/// the `crypto` crate; a fixed function of the characters alone.
pub uninterp spec fn md5_of(s: Seq<char>) -> Seq<char>;

/// The lowercase hex md5 digest of a byte sequence, as computed by the
/// `crypto` crate; a fixed function of the bytes alone.
pub uninterp spec fn md5_bytes_of(b: Seq<u8>) -> Seq<char>;

/// A lowercase hexadecimal digit.
pub open spec fn spec_is_lower_hex(c: char) -> bool {
    ('0' <= c && c <= '9') || ('a' <= c && c <= 'f')
}

/// Relies on crypto::md5::Md5 with Digest::input_str and Digest::result_str:
/// the digest is a function of the input characters alone, rendered as 32
/// lowercase hex characters (128 bits, two digits per byte, the lowercase
/// alphabet).
#[verifier::external_body]
pub fn md5(s: &str) -> (r: String)
    ensures
        r@ == md5_of(s@),
        r@.len() == 32,
        forall|i: int| 0 <= i < r@.len() ==> spec_is_lower_hex(#[trigger] r@[i]),
{
    let mut hasher = crypto::md5::Md5::new();
    crypto::digest::Digest::input_str(&mut hasher, s);
    crypto::digest::Digest::result_str(&mut hasher)
}

/// Relies on crypto::md5::Md5 with Digest::input and Digest::result_str:
/// the digest is a function of the input bytes alone, rendered as 32
/// lowercase hex characters.
#[verifier::external_body]
pub fn md5_by_bytes(bytes: &[u8]) -> (r: String)
    ensures
        r@ == md5_bytes_of(bytes@),
        r@.len() == 32,
        forall|i: int| 0 <= i < r@.len() ==> spec_is_lower_hex(#[trigger] r@[i]),
{
    let mut hasher = crypto::md5::Md5::new();
    crypto::digest::Digest::input(&mut hasher, bytes);
    crypto::digest::Digest::result_str(&mut hasher)
}

// ---------------------------------------------------------------------------
// Base64 (standard alphabet, padded).
// ---------------------------------------------------------------------------

/// The standard padded base64 rendering of a byte sequence, as computed by
/// the `base64` crate's STANDARD engine.
pub uninterp spec fn b64_of(b: Seq<u8>) -> Seq<char>;

/// What the `base64` crate's STANDARD engine decodes a string to: `None`
/// stands for its `DecodeError`.
pub uninterp spec fn b64_decode_of(s: Seq<char>) -> Option<Seq<u8>>;

/// Relies on base64's Engine::encode with the STANDARD (padded) engine: the
/// output is a function of the input bytes alone, four characters for every
/// three input bytes, the last group padded; the same engine's decode
/// restores exactly the input bytes.
#[verifier::external_body]
pub fn base64_encode(bytes: &[u8]) -> (r: String)
    ensures
        r@ == b64_of(bytes@),
        r@.len() == 4 * ((bytes@.len() + 2) / 3),
        b64_decode_of(r@) == Some(bytes@),
{
    <base64::engine::GeneralPurpose as base64::Engine>::encode(
        &base64::engine::general_purpose::STANDARD,
        bytes,
    )
}

/// Relies on base64's Engine::decode with the STANDARD engine: the outcome is
/// a function of the input characters alone; a malformed input decodes to
/// nothing.
#[verifier::external_body]
pub fn base64_decode(base64: &str) -> (r: Option<Vec<u8>>)
    ensures
        match r {
            Some(v) => b64_decode_of(base64@) == Some(v@),
            None => b64_decode_of(base64@) is None,
        },
{
    match <base64::engine::GeneralPurpose as base64::Engine>::decode(
        &base64::engine::general_purpose::STANDARD,
        base64,
    ) {
        Ok(v) => Some(v),
        Err(_) => None,
    }
}

// ---------------------------------------------------------------------------
// Pinyin romanisation of single characters.
// ---------------------------------------------------------------------------

/// What the `pinyin` crate assigns to one character: the plain romanisation
/// and its first letter, or nothing for characters outside its tables. A
/// fixed function of the character alone.
pub uninterp spec fn pinyin_of(c: char) -> Option<(Seq<char>, Seq<char>)>;

/// Relies on pinyin's ToPinyin for char, Pinyin::plain and
/// Pinyin::first_letter: all are table lookups determined by the character.
#[verifier::external_body]
pub fn char_pinyin(c: char) -> (r: Option<(String, String)>)
    ensures
        match r {
            Some(p) => pinyin_of(c) == Some((p.0@, p.1@)),
            None => pinyin_of(c) is None,
        },
{
    match <char as pinyin::ToPinyin>::to_pinyin(&c) {
        Some(p) => Some((p.plain().to_string(), p.first_letter().to_string())),
        None => None,
    }
}

/// The pinyin rendering of a text: each character contributes its plain
/// romanisation to the first component and its first letter to the second;
/// a character without a romanisation contributes itself to both.
pub open spec fn spec_text_pinyin(s: Seq<char>) -> (Seq<char>, Seq<char>)
    decreases s.len(),
{
    if s.len() == 0 {
        (Seq::empty(), Seq::empty())
    } else {
        let rest = spec_text_pinyin(s.drop_last());
        match pinyin_of(s.last()) {
            Some(p) => (rest.0 + p.0, rest.1 + p.1),
            None => (rest.0.push(s.last()), rest.1.push(s.last())),
        }
    }
}

/// Romanise a text: the full pinyin and the first-letter abbreviation.
pub fn text_to_pinyin(text: &str) -> (r: (String, String))
    ensures
        (r.0@, r.1@) == spec_text_pinyin(text@),
{
    let n = text.unicode_len();
    let mut pinyin = String::new();
    let mut abb = String::new();
    let mut i: usize = 0;
    while i < n
        invariant
            i <= n,
            n == text@.len(),
            (pinyin@, abb@) == spec_text_pinyin(text@.take(i as int)),
        decreases n - i,
    {
        let c = text.get_char(i);
        match char_pinyin(c) {
            Some(p) => {
                pinyin.append(p.0.as_str());
                abb.append(p.1.as_str());
            },
            None => {
                let one = text.substring_char(i, i + 1);
                pinyin.append(one);
                abb.append(one);
            },
        }
        proof {
            assert(text@.take(i + 1).drop_last() =~= text@.take(i as int));
            assert(text@.take(i + 1).last() == text@[i as int]);
            assert(text@.subrange(i as int, i + 1) =~= seq![text@[i as int]]);
        }
        i += 1;
    }
    proof {
        assert(text@.take(n as int) =~= text@);
    }
    (pinyin, abb)
}

// ---------------------------------------------------------------------------
// Plain verified string helpers.
// ---------------------------------------------------------------------------

/// The Unicode White_Space characters, as `str::trim` removes them.
pub open spec fn spec_is_ws(c: char) -> bool {
    c == ' ' || c == '\t' || c == '\n' || c == '\r' || c == '\u{000B}' || c == '\u{000C}'
        || c == '\u{0085}' || c == '\u{00A0}' || c == '\u{1680}' || ('\u{2000}' <= c
        && c <= '\u{200A}') || c == '\u{2028}' || c == '\u{2029}' || c == '\u{202F}'
        || c == '\u{205F}' || c == '\u{3000}'
}

/// Whether a character is whitespace in the sense of `str::trim`.
pub fn is_ws(c: char) -> (r: bool)
    ensures
        r == spec_is_ws(c),
{
    c == ' ' || c == '\t' || c == '\n' || c == '\r' || c == '\u{000B}' || c == '\u{000C}'
        || c == '\u{0085}' || c == '\u{00A0}' || c == '\u{1680}' || ('\u{2000}' <= c
        && c <= '\u{200A}') || c == '\u{2028}' || c == '\u{2029}' || c == '\u{202F}'
        || c == '\u{205F}' || c == '\u{3000}'
}

/// How many whitespace characters the text begins with.
pub open spec fn ws_prefix_len(s: Seq<char>) -> int
    decreases s.len(),
{
    if s.len() == 0 {
        0
    } else if spec_is_ws(s[0]) {
        1 + ws_prefix_len(s.drop_first())
    } else {
        0
    }
}

/// How many whitespace characters the text ends with.
pub open spec fn ws_suffix_len(s: Seq<char>) -> int
    decreases s.len(),
{
    if s.len() == 0 {
        0
    } else if spec_is_ws(s.last()) {
        1 + ws_suffix_len(s.drop_last())
    } else {
        0
    }
}

/// The text with leading and trailing whitespace removed.
pub open spec fn spec_trim(s: Seq<char>) -> Seq<char> {
    if ws_prefix_len(s) == s.len() {
        Seq::empty()
    } else {
        s.subrange(ws_prefix_len(s), s.len() - ws_suffix_len(s))
    }
}

proof fn lemma_ws_prefix_len_is(s: Seq<char>, k: int)
    requires
        0 <= k <= s.len(),
        forall|j: int| 0 <= j < k ==> spec_is_ws(s[j]),
        k == s.len() || !spec_is_ws(s[k]),
    ensures
        ws_prefix_len(s) == k,
    decreases s.len(),
{
    if s.len() == 0 {
    } else if spec_is_ws(s[0]) {
        assert(k >= 1);
        lemma_ws_prefix_len_is(s.drop_first(), k - 1);
    }
}

proof fn lemma_ws_suffix_len_is(s: Seq<char>, k: int)
    requires
        0 <= k <= s.len(),
        forall|j: int| s.len() - k <= j < s.len() ==> spec_is_ws(s[j]),
        k == s.len() || !spec_is_ws(s[s.len() - k - 1]),
    ensures
        ws_suffix_len(s) == k,
    decreases s.len(),
{
    if s.len() == 0 {
    } else if spec_is_ws(s.last()) {
        assert(k >= 1);
        lemma_ws_suffix_len_is(s.drop_last(), k - 1);
    }
}

/// Remove leading and trailing whitespace, at the level of characters.
pub fn trim_str(s: &str) -> (r: String)
    ensures
        r@ == spec_trim(s@),
{
    let n = s.unicode_len();
    let mut a: usize = 0;
    while a < n && is_ws(s.get_char(a))
        invariant
            a <= n,
            n == s@.len(),
            forall|j: int| 0 <= j < a ==> spec_is_ws(s@[j]),
        decreases n - a,
    {
        a += 1;
    }
    proof {
        lemma_ws_prefix_len_is(s@, a as int);
    }
    if a == n {
        return String::new();
    }
    let mut b: usize = n;
    while b > a && is_ws(s.get_char(b - 1))
        invariant
            a <= b <= n,
            n == s@.len(),
            !spec_is_ws(s@[a as int]),
            forall|j: int| b <= j < n ==> spec_is_ws(s@[j]),
        decreases b,
    {
        b -= 1;
    }
    proof {
        lemma_ws_suffix_len_is(s@, n - b);
    }
    let out = s.substring_char(a, b);
    out.to_owned()
}

/// The first `n` characters of the text, or all of it if it is shorter.
pub open spec fn spec_take_chars(s: Seq<char>, n: int) -> Seq<char> {
    if s.len() <= n {
        s
    } else {
        s.take(n)
    }
}

/// Keep only the first `n` characters.
pub fn take_chars(s: &str, n: usize) -> (r: String)
    ensures
        r@ == spec_take_chars(s@, n as int),
{
    let len = s.unicode_len();
    if len <= n {
        proof {
            assert(s@.subrange(0, s@.len() as int) =~= s@);
        }
        s.substring_char(0, len).to_owned()
    } else {
        s.substring_char(0, n).to_owned()
    }
}

/// Whether `pre` is a prefix of `s`.
pub open spec fn spec_starts_with(s: Seq<char>, pre: Seq<char>) -> bool {
    pre.len() <= s.len() && s.subrange(0, pre.len() as int) == pre
}

/// Whether `suf` is a suffix of `s`.
pub open spec fn spec_ends_with(s: Seq<char>, suf: Seq<char>) -> bool {
    suf.len() <= s.len() && s.subrange(s.len() - suf.len(), s.len() as int) == suf
}

/// Whether `sub` occurs in `s` starting at position `i`.
pub open spec fn spec_matches_at(s: Seq<char>, sub: Seq<char>, i: int) -> bool {
    0 <= i && i + sub.len() <= s.len() && s.subrange(i, i + sub.len()) == sub
}

/// Whether `sub` occurs somewhere in `s`.
pub open spec fn spec_contains(s: Seq<char>, sub: Seq<char>) -> bool {
    exists|i: int| spec_matches_at(s, sub, i)
}

/// Whether `s` begins with the prefix `pre`.
pub fn starts_with_str(s: &str, pre: &str) -> (r: bool)
    ensures
        r == spec_starts_with(s@, pre@),
{
    let s_len = s.unicode_len();
    let pre_len = pre.unicode_len();
    if pre_len > s_len {
        return false;
    }
    let mut i: usize = 0;
    while i < pre_len
        invariant
            i <= pre_len <= s_len,
            s_len == s@.len(),
            pre_len == pre@.len(),
            forall|j: int| 0 <= j < i ==> s@[j] == pre@[j],
        decreases pre_len - i,
    {
        if s.get_char(i) != pre.get_char(i) {
            assert(s@.subrange(0, pre@.len() as int)[i as int] != pre@[i as int]);
            return false;
        }
        i += 1;
    }
    assert(s@.subrange(0, pre@.len() as int) =~= pre@);
    true
}

/// Whether `s` ends with the suffix `suf`.
pub fn ends_with_str(s: &str, suf: &str) -> (r: bool)
    ensures
        r == spec_ends_with(s@, suf@),
{
    let s_len = s.unicode_len();
    let suf_len = suf.unicode_len();
    if suf_len > s_len {
        return false;
    }
    let start = s_len - suf_len;
    let mut i: usize = 0;
    while i < suf_len
        invariant
            i <= suf_len <= s_len,
            start == s_len - suf_len,
            s_len == s@.len(),
            suf_len == suf@.len(),
            forall|j: int| 0 <= j < i ==> s@[start + j] == suf@[j],
        decreases suf_len - i,
    {
        if s.get_char(start + i) != suf.get_char(i) {
            assert(s@.subrange(s@.len() - suf@.len(), s@.len() as int)[i as int] != suf@[i as int]);
            return false;
        }
        i += 1;
    }
    assert(s@.subrange(s@.len() - suf@.len(), s@.len() as int) =~= suf@);
    true
}

/// Whether `sub` occurs in `s` at position `i`; `i + sub.len()` must be in
/// range.
fn matches_at(s: &str, sub: &str, i: usize) -> (r: bool)
    requires
        i + sub@.len() <= s@.len(),
    ensures
        r == spec_matches_at(s@, sub@, i as int),
{
    let s_len = s.unicode_len();
    let sub_len = sub.unicode_len();
    let mut j: usize = 0;
    while j < sub_len
        invariant
            j <= sub_len,
            i + sub_len <= s_len,
            s_len == s@.len(),
            sub_len == sub@.len(),
            forall|k: int| 0 <= k < j ==> s@[i + k] == sub@[k],
        decreases sub_len - j,
    {
        if s.get_char(i + j) != sub.get_char(j) {
            assert(s@.subrange(i as int, i + sub@.len())[j as int] != sub@[j as int]);
            return false;
        }
        j += 1;
    }
    assert(s@.subrange(i as int, i + sub@.len()) =~= sub@);
    true
}

/// Whether `sub` occurs somewhere in `s`.
pub fn contains_str(s: &str, sub: &str) -> (r: bool)
    ensures
        r == spec_contains(s@, sub@),
{
    let s_len = s.unicode_len();
    let sub_len = sub.unicode_len();
    if sub_len > s_len {
        assert(forall|i: int| !spec_matches_at(s@, sub@, i));
        return false;
    }
    if sub_len == 0 {
        assert(spec_matches_at(s@, sub@, 0)) by {
            assert(s@.subrange(0, 0) =~= sub@);
        };
        return true;
    }
    let bound = s_len - sub_len;
    let mut i: usize = 0;
    while i <= bound
        invariant
            i <= bound + 1,
            bound == s_len - sub_len,
            0 < sub_len <= s_len,
            s_len == s@.len(),
            sub_len == sub@.len(),
            forall|k: int| 0 <= k < i ==> !spec_matches_at(s@, sub@, k),
        decreases bound + 1 - i,
    {
        if matches_at(s, sub, i) {
            return true;
        }
        i += 1;
    }
    assert(forall|k: int| spec_matches_at(s@, sub@, k) ==> 0 <= k <= s@.len() - sub@.len());
    false
}

/// ASCII lowercase of one character; characters outside A..Z are unchanged.
pub open spec fn spec_lower_char(c: char) -> char {
    if 'A' <= c && c <= 'Z' {
        ((c as u8) + 0x20) as char
    } else {
        c
    }
}

/// ASCII lowercase of a text, character by character.
pub open spec fn spec_lower(s: Seq<char>) -> Seq<char> {
    s.map_values(|c: char| spec_lower_char(c))
}

/// Lower one ASCII letter.
fn lower_char(c: char) -> (r: char)
    ensures
        r == spec_lower_char(c),
{
    if 'A' <= c && c <= 'Z' {
        let b: u8 = c as u8;
        assert(b < 0x5b) by {
            assert(c <= 'Z');
        };
        ((b + 0x20) as char)
    } else {
        c
    }
}

/// ASCII-lowercase a text.
pub fn lower_str(s: &str) -> (r: String)
    ensures
        r@ == spec_lower(s@),
{
    let n = s.unicode_len();
    let mut out = String::new();
    let mut i: usize = 0;
    while i < n
        invariant
            i <= n,
            n == s@.len(),
            out@ == spec_lower(s@.take(i as int)),
        decreases n - i,
    {
        let c = lower_char(s.get_char(i));
        push_char(&mut out, c);
        proof {
            assert(spec_lower(s@.take(i + 1)) =~= spec_lower(s@.take(i as int)).push(
                spec_lower_char(s@[i as int]),
            ));
        }
        i += 1;
    }
    proof {
        assert(s@.take(n as int) =~= s@);
    }
    out
}

/// Relies on std's String::push: it appends exactly the one given character.
#[verifier::external_body]
pub fn push_char(s: &mut String, c: char)
    ensures
        final(s)@ == old(s)@.push(c),
{
    s.push(c);
}


/// Whether two texts are the same sequence of characters.
pub fn str_eq(a: &str, b: &str) -> (r: bool)
    ensures
        r == (a@ == b@),
{
    let n = a.unicode_len();
    let m = b.unicode_len();
    if n != m {
        return false;
    }
    let mut i: usize = 0;
    while i < n
        invariant
            i <= n,
            n == a@.len(),
            n == b@.len(),
            forall|j: int| 0 <= j < i ==> a@[j] == b@[j],
        decreases n - i,
    {
        if a.get_char(i) != b.get_char(i) {
            return false;
        }
        i += 1;
    }
    assert(a@ =~= b@);
    true
}

} // verus!
