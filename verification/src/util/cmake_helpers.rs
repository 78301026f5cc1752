//! Quoting and value helpers for generated CMake text.

use vstd::prelude::*;
use crate::text::{
    trim, upper, replace_all, starts_with, find_char, chars_of, trim_bounds, string_from_range,
    push_str, replace_str, to_upper, str_eq, trim_str, find_char_in, replace_char, replace_char_str,
    str_starts_with,
};

verus! {

/// `cmake_quote`: the trimmed value, inner double quotes escaped, in double quotes.
pub open spec fn spec_cmake_quote(val: Seq<char>) -> Seq<char> {
    "\""@ + replace_all(trim(val), "\""@, "\\\""@) + "\""@
}

/// The values CMake reads as booleans.
pub open spec fn is_bool_word(u: Seq<char>) -> bool {
    u == "ON"@ || u == "OFF"@ || u == "TRUE"@ || u == "FALSE"@ || u == "YES"@ || u == "NO"@
}

/// `infer_cmake_type`: `BOOL` for a boolean word in any case, else `STRING`.
pub open spec fn spec_infer_cmake_type(val: Seq<char>) -> Seq<char> {
    if is_bool_word(upper(val)) {
        "BOOL"@
    } else {
        "STRING"@
    }
}

/// The value part of `KEY=VALUE` after trimming and removing one pair of
/// surrounding double quotes.
pub open spec fn kv_value(v: Seq<char>) -> Seq<char> {
    let t = trim(v);
    if t.len() >= 2 && t[0] == '"' && t[t.len() - 1] == '"' {
        t.subrange(1, t.len() - 1)
    } else {
        t
    }
}

/// `split_kv`: split at the first `=`; key and value are trimmed; a value of
/// nothing, or no `=` at all, gives `ON`.
pub open spec fn spec_split_kv(raw: Seq<char>) -> (Seq<char>, Seq<char>) {
    match find_char(raw, '=') {
        Some(i) => {
            let v = kv_value(raw.skip(i + 1));
            (trim(raw.take(i)), if v.len() == 0 { "ON"@ } else { v })
        },
        None => (trim(raw), "ON"@),
    }
}

/// `normalize_path`: a leading `\\?\` or `//?/` removed, then separators made
/// backslashes on Windows and forward slashes elsewhere.
pub open spec fn spec_normalize_path(p: Seq<char>, windows: bool) -> Seq<char> {
    let s = if starts_with(p, "\\\\?\\"@) {
        p.skip(4)
    } else if starts_with(p, "//?/"@) {
        p.skip(4)
    } else {
        p
    };
    if windows {
        replace_char(s, '/', '\\')
    } else {
        replace_char(s, '\\', '/')
    }
}

/// Quotes a value for CMake.
pub fn cmake_quote(val: &str) -> (res: String)
    ensures
        res@ == spec_cmake_quote(val@),
{
    let t = trim_str(val);
    proof {
        reveal_strlit("\"");
    }
    let esc = replace_str(t.as_str(), "\"", "\\\"");
    let mut out = String::new();
    push_str(&mut out, "\"");
    push_str(&mut out, esc.as_str());
    push_str(&mut out, "\"");
    proof {
        assert(out@ =~= spec_cmake_quote(val@));
    }
    out
}

/// The CMake cache type for a value.
pub fn infer_cmake_type(val: &str) -> (res: &'static str)
    ensures
        res@ == spec_infer_cmake_type(val@),
{
    let u = to_upper(val);
    let s = u.as_str();
    if str_eq(s, "ON") || str_eq(s, "OFF") || str_eq(s, "TRUE") || str_eq(s, "FALSE") || str_eq(
        s,
        "YES",
    ) || str_eq(s, "NO") {
        "BOOL"
    } else {
        "STRING"
    }
}

/// Splits `KEY=VALUE` into trimmed key and value (see `spec_split_kv`).
pub fn split_kv(raw: &str) -> (res: (String, String))
    ensures
        (res.0@, res.1@) == spec_split_kv(raw@),
{
    let v = chars_of(raw);
    match find_char_in(&v, '=') {
        Some(idx) => {
            let key_all = string_from_range(&v, 0, idx);
            let key = trim_str(key_all.as_str());
            let rest = string_from_range(&v, idx + 1, v.len());
            let t = chars_of(rest.as_str());
            let (a, b) = trim_bounds(&t);
            let val = if b - a >= 2 && t[a] == '"' && t[b - 1] == '"' {
                string_from_range(&t, a + 1, b - 1)
            } else {
                string_from_range(&t, a, b)
            };
            proof {
                assert(v@.subrange(0, idx as int) =~= raw@.take(idx as int));
                assert(v@.subrange(idx + 1, v@.len() as int) =~= raw@.skip(idx + 1));
                let tt = trim(raw@.skip(idx + 1));
                assert(tt == t@.subrange(a as int, b as int));
                if b - a >= 2 && t@[a as int] == '"' && t@[b - 1] == '"' {
                    assert(tt.subrange(1, tt.len() - 1) =~= t@.subrange(a + 1, b - 1));
                }
                assert(val@ == kv_value(raw@.skip(idx + 1)));
                assert(key@ == trim(raw@.take(idx as int)));
                assert(find_char(raw@, '=') == Some(idx as int));
            }
            if val.as_str().is_empty() {
                proof {
                    reveal_strlit("ON");
                }
                (key, crate::text::to_owned("ON"))
            } else {
                (key, val)
            }
        },
        None => (trim_str(raw), crate::text::to_owned("ON")),
    }
}

/// Normalizes a path for CMake and shells (see `spec_normalize_path`).
pub fn normalize_path(p: &str, windows: bool) -> (res: String)
    ensures
        res@ == spec_normalize_path(p@, windows),
{
    let v = chars_of(p);
    let s = if str_starts_with(p, "\\\\?\\") {
        proof {
            reveal_strlit("\\\\?\\");
        }
        string_from_range(&v, 4, v.len())
    } else if str_starts_with(p, "//?/") {
        proof {
            reveal_strlit("//?/");
        }
        string_from_range(&v, 4, v.len())
    } else {
        string_from_range(&v, 0, v.len())
    };
    proof {
        assert(v@.subrange(4, v@.len() as int) =~= p@.skip(4)) by {
            if v@.len() >= 4 {
            }
        };
        assert(v@.subrange(0, v@.len() as int) =~= p@);
    }
    if windows {
        replace_char_str(s.as_str(), '/', '\\')
    } else {
        replace_char_str(s.as_str(), '\\', '/')
    }
}

} // verus!
