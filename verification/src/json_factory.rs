//! Canonical JSON rendering of the values the record store keeps: escaped
//! strings, decimal numbers, and the stable serialization of a file list
//! that fingerprinting hashes.

use vstd::prelude::*;

verus! {

// ---------------------------------------------------------------------------
// Decimal rendering of unsigned numbers.
// ---------------------------------------------------------------------------

/// The digit character for one decimal digit value.
pub open spec fn spec_dec_digit(d: int) -> char {
    if d == 0 {
        '0'
    } else if d == 1 {
        '1'
    } else if d == 2 {
        '2'
    } else if d == 3 {
        '3'
    } else if d == 4 {
        '4'
    } else if d == 5 {
        '5'
    } else if d == 6 {
        '6'
    } else if d == 7 {
        '7'
    } else if d == 8 {
        '8'
    } else {
        '9'
    }
}

/// The decimal rendering of a non-negative number, most significant digit
/// first, without leading zeros (zero itself is "0").
pub open spec fn spec_dec(n: int) -> Seq<char>
    decreases n,
{
    if n < 10 {
        seq![spec_dec_digit(n)]
    } else {
        spec_dec(n / 10).push(spec_dec_digit(n % 10))
    }
}

/// The digit character for one decimal digit value.
pub fn dec_digit_char(d: u64) -> (r: char)
    requires
        d < 10,
    ensures
        r == spec_dec_digit(d as int),
{
    if d == 0 {
        '0'
    } else if d == 1 {
        '1'
    } else if d == 2 {
        '2'
    } else if d == 3 {
        '3'
    } else if d == 4 {
        '4'
    } else if d == 5 {
        '5'
    } else if d == 6 {
        '6'
    } else if d == 7 {
        '7'
    } else if d == 8 {
        '8'
    } else {
        '9'
    }
}

/// Append the decimal rendering of `n`.
pub fn append_dec(out: &mut String, n: u64)
    ensures
        final(out)@ == old(out)@ + spec_dec(n as int),
    decreases n,
{
    if n < 10 {
        crate::string_factory::push_char(out, dec_digit_char(n));
    } else {
        append_dec(out, n / 10);
        crate::string_factory::push_char(out, dec_digit_char(n % 10));
        proof {
            assert(old(out)@ + spec_dec(n as int) =~= (old(out)@ + spec_dec(n as int / 10)).push(
                spec_dec_digit(n as int % 10),
            ));
        }
    }
}

/// The decimal rendering of `n` as a string.
pub fn u64_to_string(n: u64) -> (r: String)
    ensures
        r@ == spec_dec(n as int),
{
    let mut out = String::new();
    append_dec(&mut out, n);
    proof {
        assert(Seq::<char>::empty() + spec_dec(n as int) =~= spec_dec(n as int));
    }
    out
}

// ---------------------------------------------------------------------------
// JSON string escaping, as serde_json renders strings.
// ---------------------------------------------------------------------------

/// The lowercase hex digit character for one value below 16.
pub open spec fn spec_hex_digit(d: int) -> char {
    if d < 10 {
        spec_dec_digit(d)
    } else if d == 10 {
        'a'
    } else if d == 11 {
        'b'
    } else if d == 12 {
        'c'
    } else if d == 13 {
        'd'
    } else if d == 14 {
        'e'
    } else {
        'f'
    }
}

fn hex_digit(d: u32) -> (r: char)
    requires
        d < 16,
    ensures
        r == spec_hex_digit(d as int),
{
    if d < 10 {
        dec_digit_char(d as u64)
    } else if d == 10 {
        'a'
    } else if d == 11 {
        'b'
    } else if d == 12 {
        'c'
    } else if d == 13 {
        'd'
    } else if d == 14 {
        'e'
    } else {
        'f'
    }
}

/// How one character appears inside a JSON string literal: quote and
/// backslash get a backslash escape, the named control characters get their
/// short escapes, the remaining control characters a \u00XX escape, and
/// everything else stands as itself.
pub open spec fn spec_json_escape_char(c: char) -> Seq<char> {
    if c == '"' {
        seq!['\\', '"']
    } else if c == '\\' {
        seq!['\\', '\\']
    } else if c == '\u{0008}' {
        seq!['\\', 'b']
    } else if c == '\u{000C}' {
        seq!['\\', 'f']
    } else if c == '\n' {
        seq!['\\', 'n']
    } else if c == '\r' {
        seq!['\\', 'r']
    } else if c == '\t' {
        seq!['\\', 't']
    } else if c <= '\u{001F}' {
        seq!['\\', 'u', '0', '0', spec_hex_digit(c as int / 16), spec_hex_digit(c as int % 16)]
    } else {
        seq![c]
    }
}

/// A text with every character escaped for a JSON string literal.
pub open spec fn spec_json_escape(s: Seq<char>) -> Seq<char>
    decreases s.len(),
{
    if s.len() == 0 {
        Seq::empty()
    } else {
        spec_json_escape(s.drop_last()) + spec_json_escape_char(s.last())
    }
}

/// A JSON string literal: quotes around the escaped text.
pub open spec fn spec_json_string(s: Seq<char>) -> Seq<char> {
    seq!['"'] + spec_json_escape(s) + seq!['"']
}

fn append_escaped_char(out: &mut String, c: char)
    ensures
        final(out)@ == old(out)@ + spec_json_escape_char(c),
{
    let ghost start = out@;
    if c == '"' {
        out.append("\\\"");
        proof {
            reveal_strlit("\\\"");
            assert(start + spec_json_escape_char(c) =~= out@);
        }
    } else if c == '\\' {
        out.append("\\\\");
        proof {
            reveal_strlit("\\\\");
            assert(start + spec_json_escape_char(c) =~= out@);
        }
    } else if c == '\u{0008}' {
        out.append("\\b");
        proof {
            reveal_strlit("\\b");
            assert(start + spec_json_escape_char(c) =~= out@);
        }
    } else if c == '\u{000C}' {
        out.append("\\f");
        proof {
            reveal_strlit("\\f");
            assert(start + spec_json_escape_char(c) =~= out@);
        }
    } else if c == '\n' {
        out.append("\\n");
        proof {
            reveal_strlit("\\n");
            assert(start + spec_json_escape_char(c) =~= out@);
        }
    } else if c == '\r' {
        out.append("\\r");
        proof {
            reveal_strlit("\\r");
            assert(start + spec_json_escape_char(c) =~= out@);
        }
    } else if c == '\t' {
        out.append("\\t");
        proof {
            reveal_strlit("\\t");
            assert(start + spec_json_escape_char(c) =~= out@);
        }
    } else if c <= '\u{001F}' {
        out.append("\\u00");
        let v = c as u32;
        crate::string_factory::push_char(out, hex_digit(v / 16));
        crate::string_factory::push_char(out, hex_digit(v % 16));
        proof {
            reveal_strlit("\\u00");
            assert(start + spec_json_escape_char(c) =~= out@);
        }
    } else {
        crate::string_factory::push_char(out, c);
        proof {
            assert(start + spec_json_escape_char(c) =~= out@);
        }
    }
}

/// Append `s` as a JSON string literal, quotes and escapes included.
pub fn append_json_string(out: &mut String, s: &str)
    ensures
        final(out)@ == old(out)@ + spec_json_string(s@),
{
    crate::string_factory::push_char(out, '"');
    let n = s.unicode_len();
    let mut i: usize = 0;
    while i < n
        invariant
            i <= n,
            n == s@.len(),
            out@ == old(out)@ + seq!['"'] + spec_json_escape(s@.take(i as int)),
        decreases n - i,
    {
        append_escaped_char(out, s.get_char(i));
        proof {
            assert(s@.take(i + 1).drop_last() =~= s@.take(i as int));
            assert(s@.take(i + 1).last() == s@[i as int]);
        }
        i += 1;
    }
    crate::string_factory::push_char(out, '"');
    proof {
        assert(s@.take(n as int) =~= s@);
        assert(old(out)@ + spec_json_string(s@) =~= out@);
    }
}

// ---------------------------------------------------------------------------
// The canonical serialization of a clipboard file list.
// ---------------------------------------------------------------------------

/// The views of a list of (path, kind) pairs.
pub open spec fn views_of_pairs(s: Seq<(String, String)>) -> Seq<(Seq<char>, Seq<char>)> {
    s.map_values(|p: (String, String)| (p.0@, p.1@))
}

/// One (path, kind) pair as a two-element JSON array.
pub open spec fn spec_pair_json(p: (Seq<char>, Seq<char>)) -> Seq<char> {
    seq!['['] + spec_json_string(p.0) + seq![','] + spec_json_string(p.1) + seq![']']
}

/// The comma-separated bodies of the pairs, in order.
pub open spec fn spec_pairs_json_inner(s: Seq<(Seq<char>, Seq<char>)>) -> Seq<char>
    decreases s.len(),
{
    if s.len() == 0 {
        Seq::empty()
    } else if s.len() == 1 {
        spec_pair_json(s[0])
    } else {
        spec_pairs_json_inner(s.drop_last()) + seq![','] + spec_pair_json(s.last())
    }
}

/// The canonical JSON form of a file list: an array of [path, kind] arrays,
/// in the order the list was observed.
pub open spec fn spec_files_json(s: Seq<(Seq<char>, Seq<char>)>) -> Seq<char> {
    seq!['['] + spec_pairs_json_inner(s) + seq![']']
}

fn append_pair_json(out: &mut String, path: &str, kind: &str)
    ensures
        final(out)@ == old(out)@ + spec_pair_json((path@, kind@)),
{
    crate::string_factory::push_char(out, '[');
    append_json_string(out, path);
    crate::string_factory::push_char(out, ',');
    append_json_string(out, kind);
    crate::string_factory::push_char(out, ']');
    proof {
        assert(old(out)@ + spec_pair_json((path@, kind@)) =~= out@);
    }
}

/// Serialize a clipboard file list to its canonical JSON form; this is the
/// stable text whose hash fingerprints a file-drop observation.
pub fn stringify_files(files: &Vec<(String, String)>) -> (r: String)
    ensures
        r@ == spec_files_json(views_of_pairs(files@)),
{
    let mut out = String::new();
    crate::string_factory::push_char(&mut out, '[');
    let n = files.len();
    let mut i: usize = 0;
    while i < n
        invariant
            i <= n,
            n == files@.len(),
            out@ == seq!['['] + spec_pairs_json_inner(views_of_pairs(files@.take(i as int))),
        decreases n - i,
    {
        if i > 0 {
            crate::string_factory::push_char(&mut out, ',');
        }
        let pair = &files[i];
        append_pair_json(&mut out, pair.0.as_str(), pair.1.as_str());
        proof {
            let v = views_of_pairs(files@.take(i + 1));
            assert(v.drop_last() =~= views_of_pairs(files@.take(i as int)));
            assert(v.last() == (files@[i as int].0@, files@[i as int].1@));
            if i == 0 {
                assert(out@ =~= seq!['['] + spec_pairs_json_inner(v));
            } else {
                assert(out@ =~= seq!['['] + spec_pairs_json_inner(v));
            }
        }
        i += 1;
    }
    crate::string_factory::push_char(&mut out, ']');
    proof {
        assert(files@.take(n as int) =~= files@);
        assert(out@ =~= spec_files_json(views_of_pairs(files@)));
    }
    out
}

} // verus!
