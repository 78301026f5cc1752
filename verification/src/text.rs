//! Character-level string helpers with specifications over `Seq<char>`.
//!
//! Every helper here works on the characters of a string (its view), so the
//! contracts of the rest of the crate can be stated as equations on sequences.

use vstd::prelude::*;

verus! {

/// Appending one character to a `String` extends its view by that character.
pub assume_specification[ String::push ](s: &mut String, ch: char)
    ensures
        final(s)@ == old(s)@.push(ch),
;

// ---------------------------------------------------------------------------
// Specifications
// ---------------------------------------------------------------------------

/// Unicode `White_Space`, which is what `char::is_whitespace` and `str::trim` use.
pub open spec fn is_ws(c: char) -> bool {
    let u = c as u32;
    (9 <= u && u <= 13) || u == 32 || u == 0x85 || u == 0xA0 || u == 0x1680
        || (0x2000 <= u && u <= 0x200A) || u == 0x2028 || u == 0x2029 || u == 0x202F
        || u == 0x205F || u == 0x3000
}

/// The sequence without its leading white space.
pub open spec fn trim_start(s: Seq<char>) -> Seq<char>
    decreases s.len(),
{
    if s.len() > 0 && is_ws(s[0]) {
        trim_start(s.drop_first())
    } else {
        s
    }
}

/// The sequence without its trailing white space.
pub open spec fn trim_end(s: Seq<char>) -> Seq<char>
    decreases s.len(),
{
    if s.len() > 0 && is_ws(s.last()) {
        trim_end(s.drop_last())
    } else {
        s
    }
}

/// `str::trim`: leading and trailing white space removed.
pub open spec fn trim(s: Seq<char>) -> Seq<char> {
    trim_end(trim_start(s))
}

/// ASCII lower-casing of one character; every other character is unchanged.
pub open spec fn lower_char(c: char) -> char {
    if 'A' <= c && c <= 'Z' {
        ((c as u8) + 32) as u8 as char
    } else {
        c
    }
}

/// ASCII upper-casing of one character; every other character is unchanged.
pub open spec fn upper_char(c: char) -> char {
    if 'a' <= c && c <= 'z' {
        ((c as u8) - 32) as u8 as char
    } else {
        c
    }
}

/// `to_ascii_lowercase` on a whole sequence.
pub open spec fn lower(s: Seq<char>) -> Seq<char> {
    s.map_values(|c: char| lower_char(c))
}

/// `to_ascii_uppercase` on a whole sequence.
pub open spec fn upper(s: Seq<char>) -> Seq<char> {
    s.map_values(|c: char| upper_char(c))
}

/// `eq_ignore_ascii_case`.
pub open spec fn eq_ic(a: Seq<char>, b: Seq<char>) -> bool {
    lower(a) == lower(b)
}

/// `starts_with`.
pub open spec fn starts_with(s: Seq<char>, p: Seq<char>) -> bool {
    p.len() <= s.len() && s.take(p.len() as int) == p
}

/// `ends_with`.
pub open spec fn ends_with(s: Seq<char>, p: Seq<char>) -> bool {
    p.len() <= s.len() && s.skip(s.len() - p.len()) == p
}

/// `p` occurs in `s` starting at index `i`.
pub open spec fn occurs_at(s: Seq<char>, p: Seq<char>, i: int) -> bool {
    0 <= i && i + p.len() <= s.len() && s.subrange(i, i + p.len()) == p
}

/// `contains` for a pattern.
pub open spec fn contains(s: Seq<char>, p: Seq<char>) -> bool {
    exists|i: int| occurs_at(s, p, i)
}

/// Index of the first occurrence of `p` in `s` (`find`), if any.
pub open spec fn find(s: Seq<char>, p: Seq<char>) -> Option<int> {
    if contains(s, p) {
        Some(choose|i: int| occurs_at(s, p, i) && forall|j: int| 0 <= j < i ==> !occurs_at(s, p, j))
    } else {
        None
    }
}

/// `p` is the first occurrence index of `p` in `s`.
pub open spec fn is_first_occurrence(s: Seq<char>, p: Seq<char>, i: int) -> bool {
    occurs_at(s, p, i) && forall|j: int| 0 <= j < i ==> !occurs_at(s, p, j)
}

/// Index of the first occurrence of `c` in `s`, if any.
pub open spec fn find_char(s: Seq<char>, c: char) -> Option<int>
    decreases s.len(),
{
    if s.len() == 0 {
        None
    } else if s[0] == c {
        Some(0)
    } else {
        match find_char(s.drop_first(), c) {
            Some(i) => Some(i + 1),
            None => None,
        }
    }
}

/// `str::replace(from, to)` for a non-empty pattern: leftmost, non-overlapping matches.
pub open spec fn replace_all(s: Seq<char>, from: Seq<char>, to: Seq<char>) -> Seq<char>
    decreases s.len(),
{
    if from.len() == 0 || s.len() < from.len() {
        s
    } else if s.take(from.len() as int) == from {
        to + replace_all(s.skip(from.len() as int), from, to)
    } else {
        seq![s[0]] + replace_all(s.drop_first(), from, to)
    }
}

/// Every occurrence of character `a` replaced by `b`.
pub open spec fn replace_char(s: Seq<char>, a: char, b: char) -> Seq<char> {
    s.map_values(|c: char| if c == a { b } else { c })
}

/// `str::split(c)`: the pieces between occurrences of `c` (always at least one piece).
pub open spec fn split_char(s: Seq<char>, c: char) -> Seq<Seq<char>>
    decreases s.len(),
{
    if s.len() == 0 {
        seq![Seq::<char>::empty()]
    } else {
        let r = split_char(s.drop_last(), c);
        if s.last() == c {
            r.push(Seq::<char>::empty())
        } else {
            r.update(r.len() - 1, r.last().push(s.last()))
        }
    }
}

/// Decimal digit.
pub open spec fn is_digit(c: char) -> bool {
    '0' <= c && c <= '9'
}

/// ASCII letter or digit.
pub open spec fn is_alnum(c: char) -> bool {
    ('0' <= c && c <= '9') || ('a' <= c && c <= 'z') || ('A' <= c && c <= 'Z')
}

/// Value of a digit character.
pub open spec fn digit_val(c: char) -> nat {
    ((c as u32) - ('0' as u32)) as nat
}

/// Every character is a decimal digit.
pub open spec fn all_digits(s: Seq<char>) -> bool {
    forall|i: int| 0 <= i < s.len() ==> is_digit(#[trigger] s[i])
}

/// Decimal value of a digit sequence (most significant digit first).
pub open spec fn decimal_value(s: Seq<char>) -> nat
    decreases s.len(),
{
    if s.len() == 0 {
        0
    } else {
        decimal_value(s.drop_last()) * 10 + digit_val(s.last())
    }
}

/// What `str::parse` accepts for an unsigned integer type whose largest value is
/// `max`: an optional `+`, then one or more decimal digits, with a value of at
/// most `max`.
pub open spec fn parse_unsigned(s: Seq<char>, max: nat) -> Option<nat> {
    let d = if s.len() > 0 && s[0] == '+' { s.drop_first() } else { s };
    if d.len() > 0 && all_digits(d) && decimal_value(d) <= max {
        Some(decimal_value(d))
    } else {
        None
    }
}

/// The pieces joined with a separator between consecutive pieces.
pub open spec fn join(parts: Seq<Seq<char>>, sep: Seq<char>) -> Seq<char>
    decreases parts.len(),
{
    if parts.len() == 0 {
        Seq::empty()
    } else if parts.len() == 1 {
        parts[0]
    } else {
        join(parts.drop_last(), sep) + sep + parts.last()
    }
}

/// The views of a sequence of strings.
pub open spec fn views(v: Seq<String>) -> Seq<Seq<char>> {
    v.map_values(|s: String| s@)
}

// ---------------------------------------------------------------------------
// Lemmas
// ---------------------------------------------------------------------------

/// The views of a sequence extended by one string.
pub proof fn lemma_views_push(v: Seq<String>, s: String)
    ensures
        views(v.push(s)) == views(v).push(s@),
{
    assert(views(v.push(s)) =~= views(v).push(s@));
}

/// The views of a concatenation.
pub proof fn lemma_views_add(a: Seq<String>, b: Seq<String>)
    ensures
        views(a + b) == views(a) + views(b),
{
    assert(views(a + b) =~= views(a) + views(b));
}

proof fn lemma_trim_start_is_suffix(s: Seq<char>)
    ensures
        exists|i: int| 0 <= i <= s.len() && trim_start(s) == s.skip(i) && forall|k: int| 0 <= k < i ==> is_ws(#[trigger] s[k]),
    decreases s.len(),
{
    if s.len() > 0 && is_ws(s[0]) {
        lemma_trim_start_is_suffix(s.drop_first());
        let i = choose|i: int| 0 <= i <= s.drop_first().len() && trim_start(s.drop_first()) == s.drop_first().skip(i)
            && forall|k: int| 0 <= k < i ==> is_ws(#[trigger] s.drop_first()[k]);
        assert(s.drop_first().skip(i) =~= s.skip(i + 1));
        assert forall|k: int| 0 <= k < i + 1 implies is_ws(#[trigger] s[k]) by {
            if k > 0 {
                assert(s[k] == s.drop_first()[k - 1]);
            }
        }
    } else {
        assert(s.skip(0) =~= s);
    }
}

proof fn lemma_trim_end_is_prefix(s: Seq<char>)
    ensures
        exists|j: int| 0 <= j <= s.len() && trim_end(s) == s.take(j) && forall|k: int| j <= k < s.len() ==> is_ws(#[trigger] s[k]),
    decreases s.len(),
{
    if s.len() > 0 && is_ws(s.last()) {
        lemma_trim_end_is_prefix(s.drop_last());
        let j = choose|j: int| 0 <= j <= s.drop_last().len() && trim_end(s.drop_last()) == s.drop_last().take(j)
            && forall|k: int| j <= k < s.drop_last().len() ==> is_ws(#[trigger] s.drop_last()[k]);
        assert(s.drop_last().take(j) =~= s.take(j));
        assert forall|k: int| j <= k < s.len() implies is_ws(#[trigger] s[k]) by {
            if k < s.len() - 1 {
                assert(s[k] == s.drop_last()[k]);
            }
        }
    } else {
        assert(s.take(s.len() as int) =~= s);
    }
}

/// Text that trims to nothing is all white space.
pub proof fn lemma_trim_empty(s: Seq<char>)
    requires
        trim(s).len() == 0,
    ensures
        forall|k: int| 0 <= k < s.len() ==> is_ws(#[trigger] s[k]),
{
    lemma_trim_start_is_suffix(s);
    let i = choose|i: int| 0 <= i <= s.len() && trim_start(s) == s.skip(i) && forall|k: int| 0 <= k < i ==> is_ws(#[trigger] s[k]);
    let t = trim_start(s);
    lemma_trim_end_is_prefix(t);
    let j = choose|j: int| 0 <= j <= t.len() && trim_end(t) == t.take(j) && forall|k: int| j <= k < t.len() ==> is_ws(#[trigger] t[k]);
    assert(j == 0);
    assert forall|k: int| 0 <= k < s.len() implies is_ws(#[trigger] s[k]) by {
        if k >= i {
            assert(s[k] == t[k - i]);
        }
    }
}

/// Text of white space only trims to nothing.
pub proof fn lemma_all_ws_trims_empty(s: Seq<char>)
    requires
        forall|k: int| 0 <= k < s.len() ==> is_ws(#[trigger] s[k]),
    ensures
        trim(s).len() == 0,
{
    lemma_trim_start_skip(s, s.len() as int);
    assert(s.skip(s.len() as int) =~= Seq::<char>::empty());
}

proof fn lemma_trim_start_skip(s: Seq<char>, i: int)
    requires
        0 <= i <= s.len(),
        forall|k: int| 0 <= k < i ==> is_ws(s[k]),
        i == s.len() || !is_ws(s[i]),
    ensures
        trim_start(s) == s.skip(i),
    decreases i,
{
    if i == 0 {
        assert(s.skip(0) =~= s);
    } else {
        lemma_trim_start_skip(s.drop_first(), i - 1);
        assert(s.drop_first().skip(i - 1) =~= s.skip(i));
    }
}

proof fn lemma_trim_end_take(s: Seq<char>, j: int)
    requires
        0 <= j <= s.len(),
        forall|k: int| j <= k < s.len() ==> is_ws(s[k]),
        j == 0 || !is_ws(s[j - 1]),
    ensures
        trim_end(s) == s.take(j),
    decreases s.len() - j,
{
    if j == s.len() {
        assert(s.take(j) =~= s);
    } else {
        lemma_trim_end_take(s.drop_last(), j);
        assert(s.drop_last().take(j) =~= s.take(j));
    }
}

proof fn lemma_decimal_push(s: Seq<char>, c: char)
    ensures
        decimal_value(s.push(c)) == decimal_value(s) * 10 + digit_val(c),
{
    assert(s.push(c).drop_last() =~= s);
}

/// A split of a prefix extended by one character.
pub proof fn lemma_split_push(s: Seq<char>, c: char, x: char)
    ensures
        split_char(s.push(x), c) == (if x == c {
            split_char(s, c).push(Seq::<char>::empty())
        } else {
            let r = split_char(s, c);
            r.update(r.len() - 1, r.last().push(x))
        }),
{
    assert(s.push(x).drop_last() =~= s);
}

/// A split always has at least one piece.
pub proof fn lemma_split_nonempty(s: Seq<char>, c: char)
    ensures
        split_char(s, c).len() >= 1,
    decreases s.len(),
{
    if s.len() > 0 {
        lemma_split_nonempty(s.drop_last(), c);
    }
}

// ---------------------------------------------------------------------------
// Executable helpers
// ---------------------------------------------------------------------------

/// The characters of a string slice, in order.
pub fn chars_of(s: &str) -> (res: Vec<char>)
    ensures
        res@ == s@,
{
    let mut res: Vec<char> = Vec::new();
    for c in it: s.chars()
        invariant
            res@ == it.seq().take(it.index() as int),
            it.seq() == s@,
    {
        res.push(c);
    }
    res
}

/// Builds a `String` from a sequence of characters.
pub fn string_from_chars(v: &Vec<char>) -> (res: String)
    ensures
        res@ == v@,
{
    string_from_range(v, 0, v.len())
}

/// Builds a `String` from the characters `v[from..to]`.
pub fn string_from_range(v: &Vec<char>, from: usize, to: usize) -> (res: String)
    requires
        from <= to <= v.len(),
    ensures
        res@ == v@.subrange(from as int, to as int),
{
    let mut res = String::new();
    let mut i: usize = from;
    while i < to
        invariant
            from <= i <= to <= v.len(),
            res@ == v@.subrange(from as int, i as int),
        decreases to - i,
    {
        res.push(v[i]);
        assert(v@.subrange(from as int, i as int).push(v@[i as int]) =~= v@.subrange(
            from as int,
            i + 1,
        ));
        i += 1;
    }
    res
}

/// A copy of a string slice as an owned `String`.
pub fn to_owned(s: &str) -> (res: String)
    ensures
        res@ == s@,
{
    let v = chars_of(s);
    string_from_chars(&v)
}

/// Concatenation of two string slices.
pub fn concat2(a: &str, b: &str) -> (res: String)
    ensures
        res@ == a@ + b@,
{
    let mut r = to_owned(a);
    push_str(&mut r, b);
    r
}

/// Appends a string slice.
pub fn push_str(s: &mut String, t: &str)
    ensures
        final(s)@ == old(s)@ + t@,
{
    let v = chars_of(t);
    let mut i: usize = 0;
    while i < v.len()
        invariant
            i <= v.len(),
            v@ == t@,
            s@ == old(s)@ + v@.take(i as int),
        decreases v.len() - i,
    {
        s.push(v[i]);
        assert(old(s)@ + v@.take(i as int) + seq![v@[i as int]] =~= old(s)@ + v@.take(i + 1));
        i += 1;
    }
    assert(v@.take(v.len() as int) =~= v@);
}

/// Character sequences are equal.
pub fn chars_eq(a: &Vec<char>, b: &Vec<char>) -> (res: bool)
    ensures
        res == (a@ == b@),
{
    if a.len() != b.len() {
        return false;
    }
    let mut i: usize = 0;
    while i < a.len()
        invariant
            a.len() == b.len(),
            i <= a.len(),
            forall|k: int| 0 <= k < i ==> a@[k] == b@[k],
        decreases a.len() - i,
    {
        if a[i] != b[i] {
            return false;
        }
        i += 1;
    }
    assert(a@ =~= b@);
    true
}

/// String slices are equal.
pub fn str_eq(a: &str, b: &str) -> (res: bool)
    ensures
        res == (a@ == b@),
{
    let x = chars_of(a);
    let y = chars_of(b);
    chars_eq(&x, &y)
}

/// Index of the first non-white-space character (or the length).
fn first_non_ws(v: &Vec<char>) -> (i: usize)
    ensures
        i <= v.len(),
        forall|k: int| 0 <= k < i ==> is_ws(v@[k]),
        i == v.len() || !is_ws(v@[i as int]),
{
    let mut i: usize = 0;
    while i < v.len() && is_whitespace(v[i])
        invariant
            i <= v.len(),
            forall|k: int| 0 <= k < i ==> is_ws(v@[k]),
        decreases v.len() - i,
    {
        i += 1;
    }
    i
}

/// `char::is_whitespace`.
pub fn is_whitespace(c: char) -> (r: bool)
    ensures
        r == is_ws(c),
{
    let u = c as u32;
    (9 <= u && u <= 13) || u == 32 || u == 0x85 || u == 0xA0 || u == 0x1680 || (0x2000 <= u && u
        <= 0x200A) || u == 0x2028 || u == 0x2029 || u == 0x202F || u == 0x205F || u == 0x3000
}

/// Bounds of the trimmed part of a character sequence.
pub fn trim_bounds(v: &Vec<char>) -> (r: (usize, usize))
    ensures
        r.0 <= r.1 <= v.len(),
        v@.subrange(r.0 as int, r.1 as int) == trim(v@),
{
    let i = first_non_ws(v);
    let mut j: usize = v.len();
    while j > i && is_whitespace(v[j - 1])
        invariant
            i <= j <= v.len(),
            forall|k: int| j <= k < v.len() ==> is_ws(v@[k]),
        decreases j,
    {
        j -= 1;
    }
    proof {
        lemma_trim_start_skip(v@, i as int);
        let t = v@.skip(i as int);
        assert forall|k: int| (j - i) <= k < t.len() implies is_ws(t[k]) by {
            assert(t[k] == v@[k + i]);
        }
        if j > i {
            assert(t[j - i - 1] == v@[j - 1]);
        }
        lemma_trim_end_take(t, j - i);
        assert(t.take(j - i) =~= v@.subrange(i as int, j as int));
    }
    (i, j)
}

/// `str::trim`, as an owned `String`.
pub fn trim_str(s: &str) -> (res: String)
    ensures
        res@ == trim(s@),
{
    let v = chars_of(s);
    let (i, j) = trim_bounds(&v);
    string_from_range(&v, i, j)
}

/// `str::trim_end`, as an owned `String`.
pub fn trim_end_str(s: &str) -> (res: String)
    ensures
        res@ == trim_end(s@),
{
    let v = chars_of(s);
    let mut j: usize = v.len();
    while j > 0 && is_whitespace(v[j - 1])
        invariant
            j <= v@.len(),
            v@ == s@,
            forall|k: int| j <= k < v@.len() ==> is_ws(v@[k]),
        decreases j,
    {
        j -= 1;
    }
    proof {
        lemma_trim_end_take(s@, j as int);
        assert(v@.subrange(0, j as int) =~= v@.take(j as int));
    }
    string_from_range(&v, 0, j)
}

/// `str::trim_start`, as an owned `String`.
pub fn trim_start_str(s: &str) -> (res: String)
    ensures
        res@ == trim_start(s@),
{
    let v = chars_of(s);
    let mut i: usize = 0;
    while i < v.len() && is_whitespace(v[i])
        invariant
            i <= v@.len(),
            v@ == s@,
            forall|k: int| 0 <= k < i ==> is_ws(v@[k]),
        decreases v.len() - i,
    {
        i += 1;
    }
    proof {
        lemma_trim_start_skip(s@, i as int);
        assert(v@.subrange(i as int, v@.len() as int) =~= v@.skip(i as int));
    }
    string_from_range(&v, i, v.len())
}

/// The string is empty or white space only (`s.trim().is_empty()`).
pub fn is_blank(s: &str) -> (res: bool)
    ensures
        res == (trim(s@).len() == 0),
{
    let v = chars_of(s);
    let (i, j) = trim_bounds(&v);
    i == j
}

/// `char::to_ascii_lowercase`.
pub fn lower_ascii_char(c: char) -> (r: char)
    ensures
        r == lower_char(c),
{
    if 'A' <= c && c <= 'Z' {
        ((c as u8) + 32) as char
    } else {
        c
    }
}

/// `char::to_ascii_uppercase`.
pub fn upper_ascii_char(c: char) -> (r: char)
    ensures
        r == upper_char(c),
{
    if 'a' <= c && c <= 'z' {
        ((c as u8) - 32) as char
    } else {
        c
    }
}

/// `to_ascii_lowercase` on characters.
pub fn lower_chars(v: &Vec<char>) -> (res: Vec<char>)
    ensures
        res@ == lower(v@),
{
    let mut res: Vec<char> = Vec::new();
    let mut i: usize = 0;
    while i < v.len()
        invariant
            i <= v.len(),
            res@ == lower(v@.take(i as int)),
        decreases v.len() - i,
    {
        res.push(lower_ascii_char(v[i]));
        assert(lower(v@.take(i as int)).push(lower_char(v@[i as int])) =~= lower(
            v@.take(i + 1),
        ));
        i += 1;
    }
    assert(v@.take(v.len() as int) =~= v@);
    res
}

/// `str::to_ascii_lowercase`.
pub fn to_lower(s: &str) -> (res: String)
    ensures
        res@ == lower(s@),
{
    let v = chars_of(s);
    let l = lower_chars(&v);
    string_from_chars(&l)
}

/// `str::to_ascii_uppercase`.
pub fn to_upper(s: &str) -> (res: String)
    ensures
        res@ == upper(s@),
{
    let v = chars_of(s);
    let mut res: Vec<char> = Vec::new();
    let mut i: usize = 0;
    while i < v.len()
        invariant
            i <= v.len(),
            v@ == s@,
            res@ == upper(v@.take(i as int)),
        decreases v.len() - i,
    {
        res.push(upper_ascii_char(v[i]));
        assert(upper(v@.take(i as int)).push(upper_char(v@[i as int])) =~= upper(
            v@.take(i + 1),
        ));
        i += 1;
    }
    assert(v@.take(v.len() as int) =~= v@);
    string_from_chars(&res)
}

/// `str::eq_ignore_ascii_case`.
pub fn eq_ignore_case(a: &str, b: &str) -> (res: bool)
    ensures
        res == eq_ic(a@, b@),
{
    let x = lower_chars(&chars_of(a));
    let y = lower_chars(&chars_of(b));
    chars_eq(&x, &y)
}

/// `p` occurs in `v` at index `i`.
pub fn chars_occur_at(v: &Vec<char>, p: &Vec<char>, i: usize) -> (res: bool)
    ensures
        res == occurs_at(v@, p@, i as int),
{
    if i > v.len() || p.len() > v.len() - i {
        return false;
    }
    let mut k: usize = 0;
    while k < p.len()
        invariant
            i + p.len() <= v.len(),
            k <= p.len(),
            forall|m: int| 0 <= m < k ==> v@[i + m] == p@[m],
        decreases p.len() - k,
    {
        if v[i + k] != p[k] {
            assert(v@.subrange(i as int, i + p.len())[k as int] != p@[k as int]);
            return false;
        }
        k += 1;
    }
    assert(v@.subrange(i as int, i + p.len()) =~= p@);
    true
}

/// Index of the first occurrence of `p` in `v` at or after `from`.
pub fn find_chars_from(v: &Vec<char>, p: &Vec<char>, from: usize) -> (res: Option<usize>)
    ensures
        match res {
            Some(i) => from <= i && occurs_at(v@, p@, i as int) && forall|j: int|
                from <= j < i ==> !occurs_at(v@, p@, j),
            None => forall|j: int| from <= j ==> !occurs_at(v@, p@, j),
        },
{
    if p.len() > v.len() {
        return None;
    }
    let last = v.len() - p.len();
    if from > last {
        return None;
    }
    let mut i: usize = from;
    loop
        invariant
            last + p.len() == v.len(),
            from <= i <= last,
            forall|j: int| from <= j < i ==> !occurs_at(v@, p@, j),
        decreases last - i,
    {
        if chars_occur_at(v, p, i) {
            return Some(i);
        }
        if i == last {
            return None;
        }
        i += 1;
    }
}

/// `find`, as a character index.
pub fn find_chars(v: &Vec<char>, p: &Vec<char>) -> (res: Option<usize>)
    ensures
        match res {
            Some(i) => is_first_occurrence(v@, p@, i as int) && find(v@, p@) == Some(i as int),
            None => !contains(v@, p@) && find(v@, p@) is None,
        },
{
    let r = find_chars_from(v, p, 0);
    match r {
        Some(i) => {
            proof {
                assert(contains(v@, p@));
                let c = choose|k: int|
                    occurs_at(v@, p@, k) && forall|j: int| 0 <= j < k ==> !occurs_at(v@, p@, j);
                assert(is_first_occurrence(v@, p@, i as int));
                if c < i {
                } else if c > i {
                    assert(!occurs_at(v@, p@, i as int));
                }
            }
            Some(i)
        },
        None => None,
    }
}

/// `str::contains` for a string pattern.
pub fn str_contains(s: &str, p: &str) -> (res: bool)
    ensures
        res == contains(s@, p@),
{
    let v = chars_of(s);
    let q = chars_of(p);
    find_chars(&v, &q).is_some()
}

/// `str::starts_with`.
pub fn str_starts_with(s: &str, p: &str) -> (res: bool)
    ensures
        res == starts_with(s@, p@),
{
    let v = chars_of(s);
    let q = chars_of(p);
    let r = chars_occur_at(&v, &q, 0);
    proof {
        if q.len() <= v.len() {
            assert(v@.subrange(0, q@.len() as int) =~= v@.take(q@.len() as int));
        }
    }
    r
}

/// `str::ends_with`.
pub fn str_ends_with(s: &str, p: &str) -> (res: bool)
    ensures
        res == ends_with(s@, p@),
{
    let v = chars_of(s);
    let q = chars_of(p);
    if q.len() > v.len() {
        return false;
    }
    let r = chars_occur_at(&v, &q, v.len() - q.len());
    proof {
        assert(v@.subrange(v.len() - q.len(), v.len() as int) =~= v@.skip(v.len() - q.len()));
    }
    r
}

/// Index of the first occurrence of a character, as a character index.
pub fn find_char_in(v: &Vec<char>, c: char) -> (res: Option<usize>)
    ensures
        find_char(v@, c) == (match res {
            Some(i) => Some(i as int),
            None => None::<int>,
        }),
        match res {
            Some(i) => i < v.len() && v@[i as int] == c && forall|k: int| 0 <= k < i ==> v@[k] != c,
            None => forall|k: int| 0 <= k < v.len() ==> v@[k] != c,
        },
{
    let mut i: usize = 0;
    while i < v.len()
        invariant
            i <= v.len(),
            forall|k: int| 0 <= k < i ==> v@[k] != c,
        decreases v.len() - i,
    {
        if v[i] == c {
            proof {
                lemma_find_char_first(v@, c, i as int);
            }
            return Some(i);
        }
        i += 1;
    }
    proof {
        lemma_find_char_none(v@, c);
    }
    None
}

/// `find_char` is the first index holding the character.
pub proof fn lemma_find_char_first(s: Seq<char>, c: char, i: int)
    requires
        0 <= i < s.len(),
        s[i] == c,
        forall|k: int| 0 <= k < i ==> s[k] != c,
    ensures
        find_char(s, c) == Some(i),
    decreases i,
{
    if i > 0 {
        lemma_find_char_first(s.drop_first(), c, i - 1);
    }
}

/// `find_char` is `None` when the character does not occur.
pub proof fn lemma_find_char_none(s: Seq<char>, c: char)
    requires
        forall|k: int| 0 <= k < s.len() ==> s[k] != c,
    ensures
        find_char(s, c) is None,
    decreases s.len(),
{
    if s.len() > 0 {
        lemma_find_char_none(s.drop_first(), c);
    }
}

/// `str::replace(from, to)` for a non-empty pattern.
pub fn replace_str(s: &str, from: &str, to: &str) -> (res: String)
    requires
        from@.len() > 0,
    ensures
        res@ == replace_all(s@, from@, to@),
{
    let v = chars_of(s);
    let f = chars_of(from);
    let t = chars_of(to);
    let mut out: Vec<char> = Vec::new();
    let mut i: usize = 0;
    assert(v@.skip(0) =~= v@);
    assert(out@ + replace_all(v@, f@, t@) =~= replace_all(v@, f@, t@));
    while i < v.len()
        invariant
            i <= v.len(),
            f@.len() > 0,
            v@ == s@,
            f@ == from@,
            t@ == to@,
            out@ + replace_all(v@.skip(i as int), f@, t@) == replace_all(v@, f@, t@),
        decreases v.len() - i,
    {
        let ghost rest = v@.skip(i as int);
        if chars_occur_at(&v, &f, i) {
            proof {
                assert(rest.take(f@.len() as int) =~= v@.subrange(i as int, i + f@.len()));
                assert(rest.skip(f@.len() as int) =~= v@.skip(i + f@.len()));
                assert(out@ + t@ + replace_all(v@.skip(i + f@.len()), f@, t@) =~= out@ + (t@
                    + replace_all(rest.skip(f@.len() as int), f@, t@)));
            }
            let mut k: usize = 0;
            let ghost out0 = out@;
            while k < t.len()
                invariant
                    k <= t.len(),
                    out@ == out0 + t@.take(k as int),
                decreases t.len() - k,
            {
                out.push(t[k]);
                assert(out0 + t@.take(k as int) + seq![t@[k as int]] =~= out0 + t@.take(k + 1));
                k += 1;
            }
            assert(t@.take(t.len() as int) =~= t@);
            i += f.len();
        } else {
            proof {
                if rest.len() >= f@.len() {
                    assert(rest.take(f@.len() as int) =~= v@.subrange(i as int, i + f@.len()));
                }
                assert(rest.drop_first() =~= v@.skip(i + 1));
                assert(out@.push(v@[i as int]) + replace_all(v@.skip(i + 1), f@, t@) =~= out@ + (
                seq![rest[0]] + replace_all(rest.drop_first(), f@, t@)));
            }
            out.push(v[i]);
            i += 1;
        }
    }
    proof {
        assert(v@.skip(v.len() as int) =~= Seq::<char>::empty());
        assert(out@ + Seq::<char>::empty() =~= out@);
    }
    string_from_chars(&out)
}

/// Every occurrence of character `a` replaced by `b`.
pub fn replace_char_str(s: &str, a: char, b: char) -> (res: String)
    ensures
        res@ == replace_char(s@, a, b),
{
    let v = chars_of(s);
    let mut out: Vec<char> = Vec::new();
    let mut i: usize = 0;
    while i < v.len()
        invariant
            i <= v.len(),
            v@ == s@,
            out@ == replace_char(v@.take(i as int), a, b),
        decreases v.len() - i,
    {
        let c = v[i];
        out.push(if c == a { b } else { c });
        assert(replace_char(v@.take(i as int), a, b).push(if c == a { b } else { c })
            =~= replace_char(v@.take(i + 1), a, b));
        i += 1;
    }
    assert(v@.take(v.len() as int) =~= v@);
    string_from_chars(&out)
}

/// `str::split(c)`, collected.
pub fn split_str(s: &str, c: char) -> (res: Vec<String>)
    ensures
        views(res@) == split_char(s@, c),
{
    let v = chars_of(s);
    let mut pieces: Vec<String> = Vec::new();
    let mut cur: Vec<char> = Vec::new();
    let mut i: usize = 0;
    while i < v.len()
        invariant
            i <= v.len(),
            v@ == s@,
            views(pieces@).push(cur@) == split_char(v@.take(i as int), c),
        decreases v.len() - i,
    {
        let x = v[i];
        proof {
            lemma_split_push(v@.take(i as int), c, x);
            assert(v@.take(i as int).push(x) =~= v@.take(i + 1));
        }
        if x == c {
            let piece = string_from_chars(&cur);
            pieces.push(piece);
            cur = Vec::new();
            assert(views(pieces@) =~= views(old_pieces_helper(pieces@)).push(piece@)) by {
                assert(pieces@.drop_last() =~= old_pieces_helper(pieces@));
            }
            assert(views(pieces@).push(cur@) =~= split_char(v@.take(i + 1), c));
        } else {
            let ghost before = views(pieces@).push(cur@);
            cur.push(x);
            assert(views(pieces@).push(cur@) =~= before.update(before.len() - 1, before.last().push(x)));
        }
        i += 1;
    }
    pieces.push(string_from_chars(&cur));
    assert(v@.take(v.len() as int) =~= v@);
    assert(views(pieces@) =~= views(pieces@.drop_last()).push(pieces@.last()@));
    pieces
}

/// Joins strings with a separator (`[..].join(sep)`).
pub fn join_strings(v: &Vec<String>, sep: &str) -> (res: String)
    ensures
        res@ == join(views(v@), sep@),
{
    let mut res = String::new();
    let mut i: usize = 0;
    while i < v.len()
        invariant
            i <= v.len(),
            res@ == join(views(v@.take(i as int)), sep@),
        decreases v.len() - i,
    {
        proof {
            lemma_views_push(v@.take(i as int), v@[i as int]);
            assert(v@.take(i + 1) =~= v@.take(i as int).push(v@[i as int]));
            assert(views(v@.take(i + 1)).drop_last() =~= views(v@.take(i as int)));
        }
        if i > 0 {
            push_str(&mut res, sep);
        } else {
            assert(views(v@.take(i as int)) =~= Seq::<Seq<char>>::empty());
            assert(res@ =~= Seq::<char>::empty());
        }
        push_str(&mut res, v[i].as_str());
        proof {
            if i == 0 {
                assert(res@ =~= views(v@.take(1))[0]);
            }
        }
        i += 1;
    }
    assert(v@.take(v.len() as int) =~= v@);
    res
}

/// Concatenation of three string slices.
pub fn cat3(a: &str, b: &str, c: &str) -> (res: String)
    ensures
        res@ == a@ + b@ + c@,
{
    let mut r = to_owned(a);
    push_str(&mut r, b);
    push_str(&mut r, c);
    r
}

/// Concatenation of five string slices.
pub fn cat5(a: &str, b: &str, c: &str, d: &str, e: &str) -> (res: String)
    ensures
        res@ == a@ + b@ + c@ + d@ + e@,
{
    let mut r = cat3(a, b, c);
    push_str(&mut r, d);
    push_str(&mut r, e);
    r
}

/// Concatenation of seven string slices.
pub fn cat7(a: &str, b: &str, c: &str, d: &str, e: &str, f: &str, g: &str) -> (res: String)
    ensures
        res@ == a@ + b@ + c@ + d@ + e@ + f@ + g@,
{
    let mut r = cat5(a, b, c, d, e);
    push_str(&mut r, f);
    push_str(&mut r, g);
    r
}

/// The first line of a text as `str::lines` yields it (without its line
/// ending, `\n` or `\r\n`), or `None` for an empty text.
pub open spec fn first_line(t: Seq<char>) -> Option<Seq<char>> {
    if t.len() == 0 {
        None
    } else {
        match find_char(t, '\n') {
            Some(i) => Some(strip_cr(t.take(i))),
            None => Some(t),
        }
    }
}

/// A line without the carriage return that ends it, if any.
pub open spec fn strip_cr(l: Seq<char>) -> Seq<char> {
    if l.len() > 0 && l.last() == '\r' {
        l.drop_last()
    } else {
        l
    }
}

/// The lines of a text as `str::lines` yields them: split at `\n`, a `\r`
/// before a `\n` dropped, and no empty line after a final `\n`.
pub open spec fn text_lines(t: Seq<char>) -> Seq<Seq<char>> {
    if t.len() == 0 {
        Seq::empty()
    } else {
        let p = split_char(t, '\n');
        p.drop_last().map_values(|l: Seq<char>| strip_cr(l)) + if t.last() == '\n' {
            Seq::<Seq<char>>::empty()
        } else {
            seq![p.last()]
        }
    }
}

fn strip_cr_string(s: String) -> (res: String)
    ensures
        res@ == strip_cr(s@),
{
    let v = chars_of(s.as_str());
    if v.len() > 0 && v[v.len() - 1] == '\r' {
        let r = string_from_range(&v, 0, v.len() - 1);
        assert(v@.subrange(0, v.len() - 1) =~= v@.drop_last());
        r
    } else {
        s
    }
}

/// `str::lines`, collected.
pub fn text_lines_of(t: &str) -> (res: Vec<String>)
    ensures
        views(res@) == text_lines(t@),
{
    let mut out: Vec<String> = Vec::new();
    let v = chars_of(t);
    if v.len() == 0 {
        assert(views(out@) =~= text_lines(t@));
        return out;
    }
    let pieces = split_str(t, '\n');
    proof {
        lemma_split_nonempty(t@, '\n');
    }
    let ghost p = views(pieces@);
    let n = pieces.len() - 1;
    let mut k: usize = 0;
    while k < n
        invariant
            k <= n,
            n + 1 == pieces@.len(),
            p == views(pieces@),
            views(out@) == p.take(k as int).map_values(|l: Seq<char>| strip_cr(l)),
        decreases n - k,
    {
        let l = strip_cr_string(pieces[k].clone());
        push_line(&mut out, l);
        assert(p.take(k + 1).map_values(|l: Seq<char>| strip_cr(l)) =~= p.take(k as int).map_values(
            |l: Seq<char>| strip_cr(l),
        ).push(strip_cr(p[k as int])));
        k += 1;
    }
    assert(p.take(n as int) =~= p.drop_last());
    if v[v.len() - 1] != '\n' {
        push_line(&mut out, pieces[n].clone());
    }
    assert(views(out@) =~= text_lines(t@));
    out
}

/// The first line of a text (see `first_line`).
pub fn first_line_of(t: &str) -> (res: Option<String>)
    ensures
        opt_view_s(res) == first_line(t@),
{
    let v = chars_of(t);
    if v.len() == 0 {
        return None;
    }
    match find_char_in(&v, '\n') {
        Some(end) => {
            let r = string_from_range(&v, 0, end);
            assert(v@.subrange(0, end as int) =~= v@.take(end as int));
            Some(strip_cr_string(r))
        },
        None => Some(to_owned(t)),
    }
}

/// Decimal digit character of a value below ten.
pub open spec fn digit_char(d: nat) -> char {
    if d == 0 { '0' } else if d == 1 { '1' } else if d == 2 { '2' } else if d == 3 { '3' } else if d
        == 4 { '4' } else if d == 5 { '5' } else if d == 6 { '6' } else if d == 7 { '7' } else if d
        == 8 { '8' } else { '9' }
}

/// Decimal notation of a natural number, as `format!("{}")` writes it.
pub open spec fn decimal(n: nat) -> Seq<char>
    decreases n,
{
    if n < 10 {
        seq![digit_char(n)]
    } else {
        decimal(n / 10).push(digit_char(n % 10))
    }
}

fn digit_char_exec(d: u32) -> (c: char)
    requires
        d < 10,
    ensures
        c == digit_char(d as nat),
{
    if d == 0 { '0' } else if d == 1 { '1' } else if d == 2 { '2' } else if d == 3 { '3' } else if d
        == 4 { '4' } else if d == 5 { '5' } else if d == 6 { '6' } else if d == 7 { '7' } else if d
        == 8 { '8' } else { '9' }
}

/// `n.to_string()`.
pub fn u32_to_string(n: u32) -> (res: String)
    ensures
        res@ == decimal(n as nat),
    decreases n,
{
    if n < 10 {
        let mut s = String::new();
        s.push(digit_char_exec(n));
        assert(s@ =~= decimal(n as nat));
        s
    } else {
        let mut s = u32_to_string(n / 10);
        s.push(digit_char_exec(n % 10));
        s
    }
}

/// `n.to_string()` for a `usize`.
pub fn usize_to_string(n: usize) -> (res: String)
    ensures
        res@ == decimal(n as nat),
    decreases n,
{
    if n < 10 {
        let mut s = String::new();
        s.push(digit_char_exec(n as u32));
        assert(s@ =~= decimal(n as nat));
        s
    } else {
        let mut s = usize_to_string(n / 10);
        s.push(digit_char_exec((n % 10) as u32));
        s
    }
}

/// View of an optional string.
pub open spec fn opt_view_s(o: Option<String>) -> Option<Seq<char>> {
    match o {
        Some(s) => Some(s@),
        None => None,
    }
}

/// Appends one line to a list of lines.
pub fn push_line(out: &mut Vec<String>, s: String)
    ensures
        views(final(out)@) == views(old(out)@).push(s@),
{
    proof {
        lemma_views_push(out@, s);
    }
    out.push(s);
}

/// Appends a string literal as a line.
pub fn push_lit(out: &mut Vec<String>, s: &str)
    ensures
        views(final(out)@) == views(old(out)@).push(s@),
{
    push_line(out, to_owned(s));
}

/// Appends lines to a list of lines.
pub fn extend_lines(out: &mut Vec<String>, more: &Vec<String>)
    ensures
        views(final(out)@) == views(old(out)@) + views(more@),
{
    let mut i: usize = 0;
    while i < more.len()
        invariant
            i <= more@.len(),
            views(out@) == views(old(out)@) + views(more@.take(i as int)),
        decreases more.len() - i,
    {
        let c = more[i].clone();
        proof {
            lemma_views_push(more@.take(i as int), more@[i as int]);
            assert(more@.take(i + 1) =~= more@.take(i as int).push(more@[i as int]));
            assert(views(old(out)@) + views(more@.take(i as int)).push(c@) =~= (views(old(out)@) + views(more@.take(i as int))).push(c@));
        }
        push_line(out, c);
        i += 1;
    }
    assert(more@.take(more@.len() as int) =~= more@);
}

spec fn old_pieces_helper(p: Seq<String>) -> Seq<String> {
    p.drop_last()
}

/// Parses an unsigned decimal number as `str::parse` does, with `max` the largest
/// value of the target type.
pub fn parse_unsigned_str(s: &str, max: u64) -> (res: Option<u64>)
    ensures
        res == (match parse_unsigned(s@, max as nat) {
            Some(n) => Some(n as u64),
            None => None::<u64>,
        }),
{
    let v = chars_of(s);
    let start: usize = if v.len() > 0 && v[0] == '+' { 1 } else { 0 };
    let ghost d = if v@.len() > 0 && v@[0] == '+' { v@.drop_first() } else { v@ };
    assert(d =~= v@.skip(start as int));
    if start >= v.len() {
        return None;
    }
    let mut acc: u64 = 0;
    let mut i: usize = start;
    while i < v.len()
        invariant
            start <= i <= v.len(),
            v@ == s@,
            d == v@.skip(start as int),
            d == (if s@.len() > 0 && s@[0] == '+' { s@.drop_first() } else { s@ }),
            all_digits(v@.subrange(start as int, i as int)),
            acc as nat == decimal_value(v@.subrange(start as int, i as int)),
            acc <= max,
        decreases v.len() - i,
    {
        let c = v[i];
        if !('0' <= c && c <= '9') {
            proof {
                assert(d[i - start] == c);
                assert(!all_digits(d));
            }
            return None;
        }
        let dv = (c as u32 - '0' as u32) as u64;
        proof {
            lemma_decimal_push(v@.subrange(start as int, i as int), c);
            assert(v@.subrange(start as int, i as int).push(c) =~= v@.subrange(start as int, i + 1));
        }
        if (acc as u128) * 10 + (dv as u128) > max as u128 {
            proof {
                if all_digits(d) {
                    lemma_decimal_prefix_bound(d, (i + 1 - start) as int);
                    assert(d.take((i + 1 - start) as int) =~= v@.subrange(start as int, i + 1));
                }
            }
            return None;
        }
        acc = acc * 10 + dv;
        i += 1;
    }
    assert(v@.subrange(start as int, v.len() as int) =~= d);
    Some(acc)
}

/// The decimal value of a digit sequence is at least that of any prefix.
proof fn lemma_decimal_prefix_bound(d: Seq<char>, k: int)
    requires
        0 <= k <= d.len(),
        all_digits(d),
    ensures
        decimal_value(d.take(k)) <= decimal_value(d),
    decreases d.len() - k,
{
    if k < d.len() {
        lemma_decimal_prefix_bound(d, k + 1);
        assert(d.take(k + 1).drop_last() =~= d.take(k));
        assert(decimal_value(d.take(k + 1)) == decimal_value(d.take(k)) * 10 + digit_val(
            d.take(k + 1).last(),
        ));
    } else {
        assert(d.take(k) =~= d);
    }
}

} // verus!
