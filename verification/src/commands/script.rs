//! How a script of the project is launched: through an interpreter named at
//! its start, through the shell when it uses shell operators, or as a program
//! with arguments. The caller resolves paths and starts the process.

use vstd::prelude::*;
use crate::text::{
    views, trim, trim_start, lower, contains, ends_with, starts_with, replace_all, replace_char,
    is_ws, push_line, push_str, to_owned, trim_str, trim_start_str, chars_of, string_from_range,
    str_contains, str_ends_with, str_starts_with, str_eq, replace_str, replace_char_str,
    is_whitespace, to_lower, lemma_views_push,
};

verus! {

// ---------------------------------------------------------------------------
// Shell operators, quoting, paths
// ---------------------------------------------------------------------------

/// The script uses operators of the shell: those of `cmd.exe` on Windows,
/// those of `sh` elsewhere.
pub open spec fn spec_is_shelly(s: Seq<char>, windows: bool) -> bool {
    if windows {
        contains(s, "&&"@) || contains(s, "||"@) || contains(s, "|"@) || contains(s, ">"@) || contains(s, "<"@)
            || contains(s, "&"@) || contains(s, "("@) || contains(s, ")"@) || contains(s, "%"@)
    } else {
        contains(s, "&&"@) || contains(s, "||"@) || contains(s, "|"@) || contains(s, ";"@) || contains(s, ">"@)
            || contains(s, "<"@) || contains(s, "$("@) || contains(s, "`"@)
    }
}

/// Whether a command line needs the shell (`cmd.exe` on Windows, `sh`
/// elsewhere).
pub fn is_shelly(s: &str, windows: bool) -> (res: bool)
    ensures
        res == spec_is_shelly(s@, windows),
{
    if windows {
        str_contains(s, "&&") || str_contains(s, "||") || str_contains(s, "|") || str_contains(s, ">")
            || str_contains(s, "<") || str_contains(s, "&") || str_contains(s, "(") || str_contains(s, ")")
            || str_contains(s, "%")
    } else {
        str_contains(s, "&&") || str_contains(s, "||") || str_contains(s, "|") || str_contains(s, ";")
            || str_contains(s, ">") || str_contains(s, "<") || str_contains(s, "$(") || str_contains(s, "`")
    }
}

/// A character that POSIX quoting must protect.
pub open spec fn needs_posix_quote(c: char) -> bool {
    is_ws(c) || c == '\'' || c == '"' || c == '\\' || c == '$' || c == '`'
}

/// An argument quoted for the shell: on Windows in double quotes with inner
/// quotes escaped, when it is empty or holds white space or a quote; elsewhere
/// in single quotes with inner single quotes written `'\''`, when it is empty
/// or holds white space or one of `'"\$` and the backquote.
pub open spec fn spec_shell_escape(a: Seq<char>, windows: bool) -> Seq<char> {
    if windows {
        if a.len() == 0 || (exists|i: int| 0 <= i < a.len() && (is_ws(a[i]) || a[i] == '"')) {
            "\""@ + replace_all(a, "\""@, "\\\""@) + "\""@
        } else {
            a
        }
    } else {
        if a.len() == 0 || (exists|i: int| 0 <= i < a.len() && needs_posix_quote(a[i])) {
            "'"@ + replace_all(a, "'"@, "'\\''"@) + "'"@
        } else {
            a
        }
    }
}

/// Quotes one argument for the shell (see `spec_shell_escape`).
pub fn shell_escape(arg: &str, windows: bool) -> (res: String)
    ensures
        res@ == spec_shell_escape(arg@, windows),
{
    let v = chars_of(arg);
    let mut special = false;
    let mut i: usize = 0;
    while i < v.len()
        invariant
            i <= v@.len(),
            v@ == arg@,
            special == (exists|k: int|
                0 <= k < i && (if windows {
                    is_ws(v@[k]) || v@[k] == '"'
                } else {
                    needs_posix_quote(v@[k])
                })),
        decreases v.len() - i,
    {
        let c = v[i];
        let hit = if windows {
            is_whitespace(c) || c == '"'
        } else {
            is_whitespace(c) || c == '\'' || c == '"' || c == '\\' || c == '$' || c == '`'
        };
        if hit {
            special = true;
        }
        i += 1;
    }
    proof {
        reveal_strlit("\"");
        reveal_strlit("'");
    }
    if v.len() == 0 || special {
        if windows {
            let mut out = to_owned("\"");
            let inner = replace_str(arg, "\"", "\\\"");
            push_str(&mut out, inner.as_str());
            push_str(&mut out, "\"");
            out
        } else {
            let mut out = to_owned("'");
            let inner = replace_str(arg, "'", "'\\''");
            push_str(&mut out, inner.as_str());
            push_str(&mut out, "'");
            out
        }
    } else {
        to_owned(arg)
    }
}

/// A program name that is a path: it holds a separator or ends in `.exe`,
/// `.cmd`, `.bat` or `.ps1`.
pub open spec fn spec_looks_like_path(s: Seq<char>) -> bool {
    contains(s, "/"@) || contains(s, "\\"@) || ends_with(s, ".exe"@) || ends_with(s, ".cmd"@) || ends_with(
        s,
        ".bat"@,
    ) || ends_with(s, ".ps1"@)
}

/// Whether a program name is a path (see `spec_looks_like_path`).
pub fn looks_like_path(s: &str) -> (res: bool)
    ensures
        res == spec_looks_like_path(s@),
{
    str_contains(s, "/") || str_contains(s, "\\") || str_ends_with(s, ".exe") || str_ends_with(s, ".cmd")
        || str_ends_with(s, ".bat") || str_ends_with(s, ".ps1")
}

// ---------------------------------------------------------------------------
// Splitting a command
// ---------------------------------------------------------------------------

/// `str::split_whitespace`: the maximal runs of non-white-space characters.
pub open spec fn split_ws(s: Seq<char>) -> Seq<Seq<char>>
    decreases s.len(),
{
    if s.len() == 0 {
        Seq::empty()
    } else {
        let r = split_ws(s.drop_last());
        let c = s.last();
        if is_ws(c) {
            r
        } else if s.len() >= 2 && !is_ws(s[s.len() - 2]) {
            r.update(r.len() - 1, r.last().push(c))
        } else {
            r.push(seq![c])
        }
    }
}

/// The first token of a script is the program, the others are its
/// arguments; a script of white space only is an empty program.
pub open spec fn spec_split_command(s: Seq<char>) -> (Seq<char>, Seq<Seq<char>>) {
    let t = split_ws(s);
    if t.len() == 0 {
        (trim(s), Seq::empty())
    } else {
        (t[0], t.drop_first())
    }
}

/// Splits a command line at white space (`str::split_whitespace`).
pub fn split_whitespace_str(s: &str) -> (res: Vec<String>)
    ensures
        views(res@) == split_ws(s@),
{
    let v = chars_of(s);
    let mut out: Vec<String> = Vec::new();
    let mut cur: Vec<char> = Vec::new();
    let mut in_tok = false;
    let mut i: usize = 0;
    while i < v.len()
        invariant
            i <= v@.len(),
            v@ == s@,
            in_tok == (i > 0 && !is_ws(v@[i - 1])),
            in_tok ==> views(out@).push(cur@) == split_ws(v@.take(i as int)),
            !in_tok ==> views(out@) == split_ws(v@.take(i as int)),
        decreases v.len() - i,
    {
        let c = v[i];
        assert(v@.take(i + 1).drop_last() =~= v@.take(i as int));
        if is_whitespace(c) {
            if in_tok {
                let piece = crate::text::string_from_chars(&cur);
                push_line(&mut out, piece);
                cur = Vec::new();
            }
            in_tok = false;
        } else {
            if in_tok {
                let ghost before = views(out@).push(cur@);
                cur.push(c);
                assert(views(out@).push(cur@) =~= before.update(before.len() - 1, before.last().push(c)));
            } else {
                cur = Vec::new();
                cur.push(c);
                assert(cur@ =~= seq![c]);
            }
            in_tok = true;
        }
        i += 1;
    }
    assert(v@.take(v@.len() as int) =~= v@);
    if in_tok {
        let piece = crate::text::string_from_chars(&cur);
        push_line(&mut out, piece);
    }
    out
}

// ---------------------------------------------------------------------------
// A leading interpreter
// ---------------------------------------------------------------------------

/// `u8::is_ascii_whitespace` on a character.
pub open spec fn is_ascii_ws(c: char) -> bool {
    c == ' ' || c == '\t' || c == '\n' || c == '\x0C' || c == '\r'
}

/// The text without its leading ASCII white space.
pub open spec fn skip_ascii_ws(s: Seq<char>) -> Seq<char>
    decreases s.len(),
{
    if s.len() > 0 && is_ascii_ws(s[0]) {
        skip_ascii_ws(s.drop_first())
    } else {
        s
    }
}

/// Bytes of a character in UTF-8.
pub open spec fn utf8_len(c: char) -> nat {
    if (c as u32) < 0x80 {
        1
    } else if (c as u32) < 0x800 {
        2
    } else if (c as u32) < 0x10000 {
        3
    } else {
        4
    }
}

/// Bytes of a text in UTF-8.
pub open spec fn byte_len(s: Seq<char>) -> nat
    decreases s.len(),
{
    if s.len() == 0 {
        0
    } else {
        byte_len(s.drop_last()) + utf8_len(s.last())
    }
}

/// Byte offset `b` lies between two characters of the text.
pub open spec fn is_char_boundary(s: Seq<char>, b: nat) -> bool {
    exists|k: int| 0 <= k <= s.len() && byte_len(s.take(k)) == b
}

/// The leading-interpreter check of a script slices its trimmed start at
/// byte 4, and then at byte 2, as far as the text reaches; each slice must
/// fall between characters.
pub open spec fn script_slices_ok(script: Seq<char>) -> bool {
    let t = trim_start(script);
    &&& byte_len(t) >= 4 ==> is_char_boundary(t, 4)
    &&& (byte_len(t) >= 2 && !(t.len() >= 4 && lower(t.take(4)) == "bash"@)) ==> is_char_boundary(t, 2)
}

/// The word `w` (any ASCII case) leads the text: it is followed by ASCII
/// white space or ends the text.
pub open spec fn leads_word(t: Seq<char>, w: Seq<char>) -> bool {
    &&& t.len() >= w.len()
    &&& lower(t.take(w.len() as int)) == w
    &&& (t.len() == w.len() || is_ascii_ws(t[w.len() as int]))
}

/// A script whose first word is `bash` or `sh` (any ASCII case), after
/// white space: the interpreter and the rest after ASCII white space.
pub open spec fn spec_detect_shell(script: Seq<char>) -> Option<(Seq<char>, Seq<char>)> {
    let t = trim_start(script);
    if leads_word(t, "bash"@) {
        Some(("bash"@, skip_ascii_ws(t.skip(4))))
    } else if leads_word(t, "sh"@) {
        Some(("sh"@, skip_ascii_ws(t.skip(2))))
    } else {
        None
    }
}

fn is_ws_char(c: char) -> (res: bool)
    ensures
        res == is_ascii_ws(c),
{
    c == ' ' || c == '\t' || c == '\n' || c == '\x0C' || c == '\r'
}

fn skip_ascii_ws_from(v: &Vec<char>, from: usize) -> (i: usize)
    requires
        from <= v@.len(),
    ensures
        from <= i <= v@.len(),
        skip_ascii_ws(v@.skip(from as int)) == v@.skip(i as int),
{
    let mut i = from;
    while i < v.len() && (v[i] == ' ' || v[i] == '\t' || v[i] == '\n' || v[i] == '\x0C' || v[i] == '\r')
        invariant
            from <= i <= v@.len(),
            skip_ascii_ws(v@.skip(from as int)) == skip_ascii_ws(v@.skip(i as int)),
        decreases v.len() - i,
    {
        assert(v@.skip(i as int).drop_first() =~= v@.skip(i + 1));
        i += 1;
    }
    i
}

/// Detects a leading `bash` or `sh` (see `spec_detect_shell`).
pub fn detect_shell_invocation(script: &str) -> (res: Option<(String, String)>)
    ensures
        match res {
            Some((a, b)) => spec_detect_shell(script@) == Some((a@, b@)),
            None => spec_detect_shell(script@) is None,
        },
{
    let t = trim_start_str(script);
    let v = chars_of(t.as_str());
    let low = to_lower(t.as_str());
    let lv = chars_of(low.as_str());
    proof {
        reveal_strlit("bash");
        reveal_strlit("sh");
    }
    if v.len() >= 4 {
        let head = string_from_range(&lv, 0, 4);
        assert(head@ =~= lower(v@.take(4)));
        if str_eq(head.as_str(), "bash") && (v.len() == 4 || is_ws_char(v[4])) {
            let i = skip_ascii_ws_from(&v, 4);
            let rest = string_from_range(&v, i, v.len());
            assert(rest@ =~= v@.skip(i as int));
            return Some((to_owned("bash"), rest));
        }
    }
    if v.len() >= 2 {
        let head = string_from_range(&lv, 0, 2);
        assert(head@ =~= lower(v@.take(2)));
        if str_eq(head.as_str(), "sh") && (v.len() == 2 || is_ws_char(v[2])) {
            let i = skip_ascii_ws_from(&v, 2);
            let rest = string_from_range(&v, i, v.len());
            assert(rest@ =~= v@.skip(i as int));
            return Some((to_owned("sh"), rest));
        }
    }
    None
}

// ---------------------------------------------------------------------------
// The launch plan
// ---------------------------------------------------------------------------

/// How a script is started.
#[derive(Debug)]
pub enum ScriptLaunch {
    /// Start the interpreter (`bash` or `sh`) with these arguments.
    Interpreter { interp: String, args: Vec<String> },
    /// Hand this command line to the shell (`sh -c`, or `cmd /C` on Windows).
    ShellLine { line: String },
    /// Start this program with these arguments; where `local` is given, the
    /// program is that path under the project directory if it exists there.
    Program { program: String, local: Option<String>, args: Vec<String> },
    /// Windows: start the program at this path, relative to the project
    /// directory when `rooted`.
    WindowsPath { path: String, rooted: bool, args: Vec<String> },
    /// Windows: a batch file at this path (relative to the project directory
    /// when `rooted`), run through `cmd /C` followed by `tail`.
    WindowsBatch { path: String, rooted: bool, tail: String },
}

/// Each argument quoted and preceded by a space.
pub open spec fn escaped_tail(args: Seq<Seq<char>>, windows: bool) -> Seq<char>
    decreases args.len(),
{
    if args.len() == 0 {
        Seq::empty()
    } else {
        escaped_tail(args.drop_last(), windows) + " "@ + spec_shell_escape(args.last(), windows)
    }
}

/// The Windows form of the script argument of an interpreter: trimmed,
/// without a leading `.\`, with `/` separators, and starting with `./` or
/// `/` (`./` is put in front otherwise).
pub open spec fn windows_interp_arg(rest: Seq<char>) -> Seq<char> {
    let r0 = trim(rest);
    let r = if starts_with(r0, ".\\"@) { r0.skip(2) } else { r0 };
    let a = replace_char(r, '\\', '/');
    if starts_with(a, "./"@) || starts_with(a, "/"@) {
        a
    } else {
        "./"@ + a
    }
}

/// The Windows path of a program: `./x` and `.\x` are `x` under the project
/// directory (with `\` separators for the first), other paths get `\`
/// separators.
pub open spec fn windows_program_path(p: Seq<char>) -> (Seq<char>, bool) {
    if starts_with(p, "./"@) {
        (replace_char(p.skip(2), '/', '\\'), true)
    } else if starts_with(p, ".\\"@) {
        (p.skip(2), true)
    } else {
        (replace_char(p, '/', '\\'), false)
    }
}

/// The view of a launch plan.
pub enum LaunchView {
    Interpreter(Seq<char>, Seq<Seq<char>>),
    ShellLine(Seq<char>),
    Program(Seq<char>, Option<Seq<char>>, Seq<Seq<char>>),
    WindowsPath(Seq<char>, bool, Seq<Seq<char>>),
    WindowsBatch(Seq<char>, bool, Seq<char>),
}

pub open spec fn launch_view(l: ScriptLaunch) -> LaunchView {
    match l {
        ScriptLaunch::Interpreter { interp, args } => LaunchView::Interpreter(interp@, views(args@)),
        ScriptLaunch::ShellLine { line } => LaunchView::ShellLine(line@),
        ScriptLaunch::Program { program, local, args } => LaunchView::Program(
            program@,
            crate::models::opt_view(local),
            views(args@),
        ),
        ScriptLaunch::WindowsPath { path, rooted, args } => LaunchView::WindowsPath(path@, rooted, views(args@)),
        ScriptLaunch::WindowsBatch { path, rooted, tail } => LaunchView::WindowsBatch(path@, rooted, tail@),
    }
}

/// How a script is launched with the user's arguments:
/// - a leading `bash`/`sh` runs that interpreter on the rest (normalized for
///   a POSIX shell on Windows), then the arguments;
/// - a script with shell operators goes to the shell with the quoted
///   arguments appended (elsewhere than Windows only when it does not look
///   like a path);
/// - otherwise its first token is the program and the other tokens come
///   before the arguments; on Windows a path-like program is normalized and a
///   `.cmd`/`.bat` one runs through `cmd /C`; elsewhere the program is first
///   looked for under the project directory (without a leading `./`).
pub open spec fn spec_plan_script(script: Seq<char>, args: Seq<Seq<char>>, windows: bool) -> LaunchView {
    match spec_detect_shell(script) {
        Some((interp, rest)) => if windows {
            LaunchView::Interpreter(interp, seq![windows_interp_arg(rest)] + args)
        } else {
            LaunchView::Interpreter(interp, seq![rest] + args)
        },
        None => {
            let program = spec_split_command(script).0;
            let sargs = spec_split_command(script).1;
            if windows {
                if spec_is_shelly(script, true) {
                    LaunchView::ShellLine(script + escaped_tail(args, true))
                } else if spec_looks_like_path(program) {
                    let np = windows_program_path(program);
                    if ends_with(np.0, ".cmd"@) || ends_with(np.0, ".bat"@) {
                        LaunchView::WindowsBatch(np.0, np.1, escaped_tail(sargs + args, true))
                    } else {
                        LaunchView::WindowsPath(np.0, np.1, sargs + args)
                    }
                } else {
                    LaunchView::Program(program, None, sargs + args)
                }
            } else {
                if spec_is_shelly(script, false) && !spec_looks_like_path(script) {
                    LaunchView::ShellLine(script + escaped_tail(args, false))
                } else {
                    let local = if starts_with(program, "./"@) { program.skip(2) } else { program };
                    LaunchView::Program(program, Some(local), sargs + args)
                }
            }
        },
    }
}

/// The command line of a shell-line plan (empty for other plans).
pub open spec fn shell_line_of(v: LaunchView) -> Seq<char> {
    match v {
        LaunchView::ShellLine(l) => l,
        _ => Seq::empty(),
    }
}

/// Whether a script runs as a shell line depends on the script alone; with
/// no arguments the line is the script itself, and each further argument
/// adds a space and its escaped form at the end of the line.
pub proof fn lemma_shell_line_appends_args(script: Seq<char>, args: Seq<Seq<char>>, windows: bool)
    ensures
        (spec_plan_script(script, args, windows) is ShellLine) == (spec_plan_script(script, Seq::empty(), windows) is ShellLine),
        spec_plan_script(script, Seq::empty(), windows) is ShellLine
            ==> shell_line_of(spec_plan_script(script, Seq::empty(), windows)) == script,
        args.len() > 0 && spec_plan_script(script, args, windows) is ShellLine
            ==> shell_line_of(spec_plan_script(script, args, windows)) == shell_line_of(
            spec_plan_script(script, args.drop_last(), windows),
        ) + " "@ + spec_shell_escape(args.last(), windows),
{
    assert(escaped_tail(Seq::<Seq<char>>::empty(), windows) =~= Seq::<char>::empty());
    assert(script + Seq::<char>::empty() =~= script);
    if args.len() > 0 {
        let t = escaped_tail(args.drop_last(), windows);
        let e = spec_shell_escape(args.last(), windows);
        assert(escaped_tail(args, windows) == t + " "@ + e);
        assert(script + (t + " "@ + e) =~= script + t + " "@ + e);
    }
}

/// A plan with one more argument `a` at the end: an argument list gets `a`
/// appended, a command line gets a space and `a` escaped for the shell.
pub open spec fn with_arg(v: LaunchView, a: Seq<char>, windows: bool) -> LaunchView {
    match v {
        LaunchView::Interpreter(i, xs) => LaunchView::Interpreter(i, xs.push(a)),
        LaunchView::ShellLine(l) => LaunchView::ShellLine(l + " "@ + spec_shell_escape(a, windows)),
        LaunchView::Program(p, l, xs) => LaunchView::Program(p, l, xs.push(a)),
        LaunchView::WindowsPath(p, r, xs) => LaunchView::WindowsPath(p, r, xs.push(a)),
        LaunchView::WindowsBatch(p, r, t) => LaunchView::WindowsBatch(p, r, t + " "@ + spec_shell_escape(a, true)),
    }
}

/// The user's arguments all reach the launch, in order, and nothing else
/// depends on them: planning with one more argument gives the plan without
/// it, with that argument added at the end.
pub proof fn lemma_plan_passes_args(script: Seq<char>, args: Seq<Seq<char>>, windows: bool)
    requires
        args.len() > 0,
    ensures
        spec_plan_script(script, args, windows) == with_arg(spec_plan_script(script, args.drop_last(), windows), args.last(), windows),
{
    let a = args.last();
    let d = args.drop_last();
    assert(args =~= d.push(a));
    let program = spec_split_command(script).0;
    let sargs = spec_split_command(script).1;
    assert(sargs + args =~= (sargs + d).push(a));
    assert((sargs + args).drop_last() =~= sargs + d);
    assert(escaped_tail(args, windows) == escaped_tail(d, windows) + " "@ + spec_shell_escape(a, windows));
    assert(script + escaped_tail(args, windows) =~= script + escaped_tail(d, windows) + " "@ + spec_shell_escape(a, windows));
    assert(escaped_tail(sargs + args, true) == escaped_tail(sargs + d, true) + " "@ + spec_shell_escape(a, true));
    match spec_detect_shell(script) {
        Some((interp, rest)) => {
            assert(seq![windows_interp_arg(rest)] + args =~= (seq![windows_interp_arg(rest)] + d).push(a));
            assert(seq![rest] + args =~= (seq![rest] + d).push(a));
        },
        None => {},
    }
}

fn escaped_tail_exec(args: &Vec<String>, windows: bool) -> (res: String)
    ensures
        res@ == escaped_tail(views(args@), windows),
{
    let mut out = String::new();
    let mut i: usize = 0;
    while i < args.len()
        invariant
            i <= args@.len(),
            out@ == escaped_tail(views(args@.take(i as int)), windows),
        decreases args.len() - i,
    {
        push_str(&mut out, " ");
        let e = shell_escape(args[i].as_str(), windows);
        push_str(&mut out, e.as_str());
        proof {
            lemma_views_push(args@.take(i as int), args@[i as int]);
            assert(args@.take(i + 1) =~= args@.take(i as int).push(args@[i as int]));
            assert(views(args@.take(i + 1)).drop_last() =~= views(args@.take(i as int)));
        }
        i += 1;
    }
    assert(args@.take(args@.len() as int) =~= args@);
    out
}

fn concat_lists(a: &Vec<String>, b: &Vec<String>) -> (res: Vec<String>)
    ensures
        views(res@) == views(a@) + views(b@),
{
    let mut out = crate::models::clone_strings(a);
    crate::text::extend_lines(&mut out, b);
    out
}

fn skip_prefix(s: &str, n: usize) -> (res: String)
    requires
        n <= s@.len(),
    ensures
        res@ == s@.skip(n as int),
{
    let v = chars_of(s);
    let r = string_from_range(&v, n, v.len());
    assert(r@ =~= s@.skip(n as int));
    r
}

fn windows_interp_arg_exec(rest: &str) -> (res: String)
    ensures
        res@ == windows_interp_arg(rest@),
{
    let r0 = trim_str(rest);
    proof {
        reveal_strlit(".\\");
        reveal_strlit("./");
        reveal_strlit("/");
    }
    let r = if str_starts_with(r0.as_str(), ".\\") { skip_prefix(r0.as_str(), 2) } else { r0 };
    let a = replace_char_str(r.as_str(), '\\', '/');
    if str_starts_with(a.as_str(), "./") || str_starts_with(a.as_str(), "/") {
        a
    } else {
        let mut out = to_owned("./");
        push_str(&mut out, a.as_str());
        out
    }
}

fn windows_program_path_exec(p: &str) -> (res: (String, bool))
    ensures
        (res.0@, res.1) == windows_program_path(p@),
{
    proof {
        reveal_strlit(".\\");
        reveal_strlit("./");
    }
    if str_starts_with(p, "./") {
        let rest = skip_prefix(p, 2);
        (replace_char_str(rest.as_str(), '/', '\\'), true)
    } else if str_starts_with(p, ".\\") {
        (skip_prefix(p, 2), true)
    } else {
        (replace_char_str(p, '/', '\\'), false)
    }
}

pub fn split_command(script: &str) -> (res: (String, Vec<String>))
    ensures
        (res.0@, views(res.1@)) == spec_split_command(script@),
{
    let toks = split_whitespace_str(script);
    if toks.len() == 0 {
        (trim_str(script), Vec::new())
    } else {
        let mut rest: Vec<String> = Vec::new();
        let mut i: usize = 1;
        while i < toks.len()
            invariant
                1 <= i <= toks@.len(),
                views(rest@) == views(toks@).subrange(1, i as int),
            decreases toks.len() - i,
        {
            push_line(&mut rest, toks[i].clone());
            assert(views(toks@).subrange(1, i + 1) =~= views(toks@).subrange(1, i as int).push(toks@[i as int]@));
            i += 1;
        }
        assert(views(toks@).subrange(1, toks@.len() as int) =~= views(toks@).drop_first());
        (toks[0].clone(), rest)
    }
}

/// Plans the launch of a script with the user's arguments (see
/// `spec_plan_script`).
pub fn plan_script(script: &str, args: &Vec<String>, windows: bool) -> (res: ScriptLaunch)
    requires
        script_slices_ok(script@),
    ensures
        launch_view(res) == spec_plan_script(script@, views(args@), windows),
{
    match detect_shell_invocation(script) {
        Some((interp, rest)) => {
            let ghost r = rest@;
            let first = if windows { windows_interp_arg_exec(rest.as_str()) } else { rest };
            let mut all: Vec<String> = Vec::new();
            push_line(&mut all, first);
            crate::text::extend_lines(&mut all, args);
            assert(views(all@) =~= seq![first@] + views(args@));
            let res = ScriptLaunch::Interpreter { interp, args: all };
            assert(launch_view(res) == spec_plan_script(script@, views(args@), windows));
            res
        },
        None => {
            let (program, sargs) = split_command(script);
            if windows {
                if is_shelly(script, true) {
                    let mut line = to_owned(script);
                    let tail = escaped_tail_exec(args, true);
                    push_str(&mut line, tail.as_str());
                    ScriptLaunch::ShellLine { line }
                } else if looks_like_path(program.as_str()) {
                    let (path, rooted) = windows_program_path_exec(program.as_str());
                    let all = concat_lists(&sargs, args);
                    if str_ends_with(path.as_str(), ".cmd") || str_ends_with(path.as_str(), ".bat") {
                        let tail = escaped_tail_exec(&all, true);
                        ScriptLaunch::WindowsBatch { path, rooted, tail }
                    } else {
                        ScriptLaunch::WindowsPath { path, rooted, args: all }
                    }
                } else {
                    ScriptLaunch::Program { program, local: None, args: concat_lists(&sargs, args) }
                }
            } else {
                if is_shelly(script, false) && !looks_like_path(script) {
                    let mut line = to_owned(script);
                    let tail = escaped_tail_exec(args, false);
                    push_str(&mut line, tail.as_str());
                    ScriptLaunch::ShellLine { line }
                } else {
                    proof {
                        reveal_strlit("./");
                    }
                    let local = if str_starts_with(program.as_str(), "./") {
                        skip_prefix(program.as_str(), 2)
                    } else {
                        to_owned(program.as_str())
                    };
                    ScriptLaunch::Program { program, local: Some(local), args: concat_lists(&sargs, args) }
                }
            }
        },
    }
}

/// Why a script cannot be run.
#[derive(Debug)]
pub enum ScriptError {
    /// No script name was given.
    NoScriptName,
    /// The project defines no script of this name.
    UnknownScript(String),
}

impl ScriptError {
    /// The message shown for the error.
    pub fn message(&self) -> (res: String)
        ensures
            res@ == match self {
                ScriptError::NoScriptName => "No script name provided"@,
                ScriptError::UnknownScript(n) => "Unknown script: "@ + n@,
            },
    {
        match self {
            ScriptError::NoScriptName => to_owned("No script name provided"),
            ScriptError::UnknownScript(n) => crate::text::concat2("Unknown script: ", n.as_str()),
        }
    }
}

/// The index of the script of this name, if any.
pub open spec fn script_index(scripts: Seq<(String, String)>, name: Seq<char>) -> Option<int> {
    if exists|i: int| 0 <= i < scripts.len() && scripts[i].0@ == name {
        Some(choose|i: int| 0 <= i < scripts.len() && scripts[i].0@ == name && forall|j: int| 0 <= j < i ==> scripts[j].0@ != name)
    } else {
        None
    }
}

/// Plans a `triton script` command: the first token names a script of the
/// project, the others are its arguments. The script named must pass the
/// interpreter check (see `script_slices_ok`).
pub fn plan_script_command(tokens: &Vec<String>, scripts: &Vec<(String, String)>, windows: bool) -> (res: Result<ScriptLaunch, ScriptError>)
    requires
        tokens@.len() > 0 ==> match script_index(scripts@, tokens@[0]@) {
            Some(i) => script_slices_ok(scripts@[i].1@),
            None => true,
        },
    ensures
        tokens@.len() == 0 ==> res is Err && res->Err_0 is NoScriptName,
        tokens@.len() > 0 ==> match script_index(scripts@, tokens@[0]@) {
            None => res is Err && (res->Err_0 matches ScriptError::UnknownScript(n) && n@ == tokens@[0]@),
            Some(i) => res is Ok && launch_view(res->Ok_0) == spec_plan_script(
                scripts@[i].1@,
                views(tokens@).drop_first(),
                windows,
            ),
        },
{
    if tokens.len() == 0 {
        return Err(ScriptError::NoScriptName);
    }
    let name = tokens[0].as_str();
    let mut i: usize = 0;
    while i < scripts.len()
        invariant
            i <= scripts@.len(),
            tokens@.len() > 0,
            name@ == tokens@[0]@,
            match script_index(scripts@, tokens@[0]@) {
                Some(i) => script_slices_ok(scripts@[i].1@),
                None => true,
            },
            forall|j: int| 0 <= j < i ==> scripts@[j].0@ != name@,
        decreases scripts.len() - i,
    {
        if str_eq(scripts[i].0.as_str(), name) {
            let mut rest: Vec<String> = Vec::new();
            let mut k: usize = 1;
            while k < tokens.len()
                invariant
                    1 <= k <= tokens@.len(),
                    views(rest@) == views(tokens@).subrange(1, k as int),
                decreases tokens.len() - k,
            {
                push_line(&mut rest, tokens[k].clone());
                assert(views(tokens@).subrange(1, k + 1) =~= views(tokens@).subrange(1, k as int).push(tokens@[k as int]@));
                k += 1;
            }
            assert(views(tokens@).subrange(1, tokens@.len() as int) =~= views(tokens@).drop_first());
            proof {
                let c = choose|q: int| 0 <= q < scripts@.len() && scripts@[q].0@ == name@ && forall|j: int| 0 <= j < q ==> scripts@[j].0@ != name@;
                assert(c == i as int) by {
                    if c < i as int {
                    } else if c > i as int {
                        assert(scripts@[i as int].0@ == name@);
                    }
                }
                assert(script_index(scripts@, tokens@[0]@) == Some(i as int));
            }
            return Ok(plan_script(scripts[i].1.as_str(), &rest, windows));
        }
        i += 1;
    }
    Err(ScriptError::UnknownScript(tokens[0].clone()))
}

} // verus!
