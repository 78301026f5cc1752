//! CMake version numbers.

use vstd::prelude::*;
use crate::text::{
    split_char, parse_unsigned, split_str, parse_unsigned_str, first_line, first_line_of, trim,
    starts_with, trim_str, str_starts_with, chars_of, string_from_range, opt_view_s, decimal,
    decimal_value, digit_char, digit_val, all_digits, is_digit,
};

verus! {

/// The lowest CMake version a generated project asks for.
pub const MIN_CMAKE_VERSION: &'static str = "3.30.1";

/// One dot-separated component of a version: its number, or 0 when it is
/// missing or not a number that fits in `u32`.
pub open spec fn version_part(p: Seq<Seq<char>>, k: int) -> u32 {
    if k < p.len() {
        match parse_unsigned(p[k], u32::MAX as nat) {
            Some(n) => n as u32,
            None => 0,
        }
    } else {
        0
    }
}

/// `parse_cmake_version`: the first three dot-separated components.
pub open spec fn spec_parse_cmake_version(ver: Seq<char>) -> (u32, u32, u32) {
    let p = split_char(ver, '.');
    (version_part(p, 0), version_part(p, 1), version_part(p, 2))
}

/// Lexicographic `>=` on version triples.
pub open spec fn triple_ge(a: (u32, u32, u32), b: (u32, u32, u32)) -> bool {
    a.0 > b.0 || (a.0 == b.0 && (a.1 > b.1 || (a.1 == b.1 && a.2 >= b.2)))
}

/// The version CMake reports on the first line of `cmake --version`:
/// the trimmed line with the prefix `cmake version ` removed, trimmed again;
/// `None` when that is empty (or the line lacks the prefix).
pub open spec fn spec_cmake_version_from_output(out: Seq<char>) -> Option<Seq<char>> {
    match first_line(out) {
        Some(l) => {
            let t = trim(l);
            let v = if starts_with(t, "cmake version "@) {
                trim(t.skip(14))
            } else {
                Seq::empty()
            };
            if v.len() > 0 {
                Some(v)
            } else {
                None
            }
        },
        None => None,
    }
}

/// Parses a version string such as `3.30.1` into its first three numbers
/// (missing or invalid components count as 0).
pub fn parse_cmake_version(ver: &str) -> (res: (u32, u32, u32))
    ensures
        res == spec_parse_cmake_version(ver@),
{
    let parts = split_str(ver, '.');
    let ghost p = split_char(ver@, '.');
    let mut out: [u32; 3] = [0, 0, 0];
    let mut k: usize = 0;
    while k < 3
        invariant
            k <= 3,
            crate::text::views(parts@) == p,
            forall|m: int| 0 <= m < k ==> out@[m] == version_part(p, m),
        decreases 3 - k,
    {
        if k < parts.len() {
            let n = parse_unsigned_str(parts[k].as_str(), u32::MAX as u64);
            assert(parts@[k as int]@ == p[k as int]);
            out[k] = match n {
                Some(x) => x as u32,
                None => 0,
            };
        } else {
            out[k] = 0;
        }
        k += 1;
    }
    (out[0], out[1], out[2])
}

/// The version reported by `cmake --version` output (see
/// `spec_cmake_version_from_output`).
pub fn cmake_version_from_output(out: &str) -> (res: Option<String>)
    ensures
        opt_view_s(res) == spec_cmake_version_from_output(out@),
{
    match first_line_of(out) {
        Some(l) => {
            let t = trim_str(l.as_str());
            let v = if str_starts_with(t.as_str(), "cmake version ") {
                proof {
                    reveal_strlit("cmake version ");
                }
                let c = chars_of(t.as_str());
                let rest = string_from_range(&c, 14, c.len());
                assert(c@.subrange(14, c@.len() as int) =~= t@.skip(14));
                trim_str(rest.as_str())
            } else {
                String::new()
            };
            if v.as_str().is_empty() {
                proof {
                    if !starts_with(t@, "cmake version "@) {
                        assert(v@ =~= Seq::<char>::empty());
                    }
                }
                None
            } else {
                Some(v)
            }
        },
        None => None,
    }
}

/// The CMake version a project requires: the system's version when it is at
/// least `MIN_CMAKE_VERSION`, else `MIN_CMAKE_VERSION`.
pub fn effective_cmake_version(system_version: Option<&str>) -> (res: (u32, u32, u32))
    ensures
        res == (match system_version {
            Some(s) => {
                let sys = spec_parse_cmake_version(s@);
                let min = spec_parse_cmake_version(MIN_CMAKE_VERSION@);
                if triple_ge(sys, min) { sys } else { min }
            },
            None => spec_parse_cmake_version(MIN_CMAKE_VERSION@),
        }),
{
    let min_ver = parse_cmake_version(MIN_CMAKE_VERSION);
    match system_version {
        Some(s) => {
            let sys = parse_cmake_version(s);
            if sys.0 > min_ver.0 || (sys.0 == min_ver.0 && (sys.1 > min_ver.1 || (sys.1 == min_ver.1
                && sys.2 >= min_ver.2))) {
                sys
            } else {
                min_ver
            }
        },
        None => min_ver,
    }
}

// ---------------------------------------------------------------------------
// Reading back a written version
// ---------------------------------------------------------------------------

proof fn lemma_decimal_digits(n: nat)
    ensures
        decimal(n).len() > 0,
        all_digits(decimal(n)),
        decimal_value(decimal(n)) == n,
    decreases n,
{
    let d = n % 10;
    assert(is_digit(digit_char(d)) && digit_val(digit_char(d)) == d) by {
        assert(d < 10);
    }
    if n >= 10 {
        lemma_decimal_digits(n / 10);
        let s = decimal(n);
        assert(s.drop_last() =~= decimal(n / 10));
        assert(s.last() == digit_char(d));
        assert(decimal_value(s) == decimal_value(decimal(n / 10)) * 10 + d);
        assert(n == (n / 10) * 10 + d);
    } else {
        let s = decimal(n);
        assert(s.drop_last() =~= Seq::<char>::empty());
        assert(decimal_value(s.drop_last()) == 0);
        assert(d == n);
        assert(decimal_value(s) == decimal_value(s.drop_last()) * 10 + digit_val(s.last()));
    }
}

proof fn lemma_split_len(s: Seq<char>, c: char)
    ensures
        split_char(s, c).len() >= 1,
    decreases s.len(),
{
    if s.len() > 0 {
        lemma_split_len(s.drop_last(), c);
    }
}

proof fn lemma_split_without(x: Seq<char>, c: char)
    requires
        forall|i: int| 0 <= i < x.len() ==> x[i] != c,
    ensures
        split_char(x, c) == seq![x],
    decreases x.len(),
{
    if x.len() == 0 {
        assert(x =~= Seq::<char>::empty());
    } else {
        lemma_split_without(x.drop_last(), c);
        assert(x.drop_last().push(x.last()) =~= x);
        assert(seq![x.drop_last()].update(0, x.drop_last().push(x.last())) =~= seq![x]);
    }
}

proof fn lemma_split_after(x: Seq<char>, c: char, t: Seq<char>)
    requires
        forall|i: int| 0 <= i < x.len() ==> x[i] != c,
    ensures
        split_char(x.push(c) + t, c) == seq![x] + split_char(t, c),
    decreases t.len(),
{
    let s = x.push(c) + t;
    if t.len() == 0 {
        assert(s =~= x.push(c));
        assert(s.drop_last() =~= x);
        lemma_split_without(x, c);
        assert(seq![x].push(Seq::<char>::empty()) =~= seq![x] + seq![Seq::<char>::empty()]);
    } else {
        lemma_split_after(x, c, t.drop_last());
        assert(s.drop_last() =~= x.push(c) + t.drop_last());
        assert(s.last() == t.last());
        let big = split_char(s.drop_last(), c);
        let small = split_char(t.drop_last(), c);
        lemma_split_len(t.drop_last(), c);
        if t.last() == c {
            assert(big.push(Seq::<char>::empty()) =~= seq![x] + small.push(Seq::<char>::empty()));
        } else {
            assert(big.last() == small.last());
            assert(big.update(big.len() - 1, big.last().push(t.last())) =~= seq![x] + small.update(
                small.len() - 1,
                small.last().push(t.last()),
            ));
        }
    }
}

proof fn lemma_version_part_of(n: u32)
    ensures
        parse_unsigned(decimal(n as nat), u32::MAX as nat) == Some(n as nat),
        forall|i: int| 0 <= i < decimal(n as nat).len() ==> decimal(n as nat)[i] != '.',
{
    lemma_decimal_digits(n as nat);
    let d = decimal(n as nat);
    assert(is_digit(d[0]));
    assert forall|i: int| 0 <= i < d.len() implies d[i] != '.' by {
        assert(is_digit(d[i]));
    }
}

/// Reading back a version written as `a.b.c` gives `(a, b, c)`, also when a
/// further dot and anything else follow.
pub proof fn lemma_parse_version_round_trip(a: u32, b: u32, c: u32, rest: Seq<char>)
    ensures
        spec_parse_cmake_version(decimal(a as nat).push('.') + decimal(b as nat).push('.') + decimal(c as nat))
            == (a, b, c),
        spec_parse_cmake_version(
            decimal(a as nat).push('.') + decimal(b as nat).push('.') + decimal(c as nat).push('.') + rest,
        ) == (a, b, c),
{
    let x = decimal(a as nat);
    let y = decimal(b as nat);
    let z = decimal(c as nat);
    lemma_version_part_of(a);
    lemma_version_part_of(b);
    lemma_version_part_of(c);
    lemma_split_without(z, '.');
    lemma_split_after(y, '.', z);
    lemma_split_after(x, '.', y.push('.') + z);
    assert(x.push('.') + y.push('.') + z =~= x.push('.') + (y.push('.') + z));
    let p1 = split_char(x.push('.') + y.push('.') + z, '.');
    assert(p1 =~= seq![x, y, z]);
    lemma_split_after(z, '.', rest);
    lemma_split_after(y, '.', z.push('.') + rest);
    lemma_split_after(x, '.', y.push('.') + (z.push('.') + rest));
    assert(x.push('.') + y.push('.') + z.push('.') + rest =~= x.push('.') + (y.push('.') + (z.push('.') + rest)));
    let p2 = split_char(x.push('.') + y.push('.') + z.push('.') + rest, '.');
    assert(p2[0] == x && p2[1] == y && p2[2] == z);
}

} // verus!
