//! Expansion of `${...}` placeholders in script and build arguments.

use vstd::prelude::*;
use crate::text::{find, find_char, opt_view_s, chars_of, find_chars, find_char_in, string_from_range, push_str, str_eq, to_owned};

verus! {

/// What a placeholder key stands for: `CONFIG`/`config` for the build
/// configuration (else `${CMAKE_BUILD_TYPE}`), `app_name` and `generator`
/// for those of the project when there is one, any other key for the
/// environment variable of that name (the first entry of `env`).
pub open spec fn lookup(
    key: Seq<char>,
    project: Option<(Seq<char>, Seq<char>)>,
    config: Option<Seq<char>>,
    env: Seq<(String, String)>,
) -> Option<Seq<char>> {
    if key == "CONFIG"@ || key == "config"@ {
        Some(match config {
            Some(c) => c,
            None => "${CMAKE_BUILD_TYPE}"@,
        })
    } else if key == "app_name"@ {
        match project {
            Some(p) => Some(p.0),
            None => None,
        }
    } else if key == "generator"@ {
        match project {
            Some(p) => Some(p.1),
            None => None,
        }
    } else {
        env_lookup(env, key, 0)
    }
}

/// The value of the first entry for `key` at or after `i`.
pub open spec fn env_lookup(env: Seq<(String, String)>, key: Seq<char>, i: int) -> Option<Seq<char>>
    decreases env.len() - i,
{
    if i < 0 || i >= env.len() {
        None
    } else if env[i].0@ == key {
        Some(env[i].1@)
    } else {
        env_lookup(env, key, i + 1)
    }
}

/// The text with each `${key}` replaced by what the key stands for; an
/// unknown key stays as it is, and so does a `${` without a closing `}`.
#[verifier::opaque]
pub open spec fn expand(
    s: Seq<char>,
    project: Option<(Seq<char>, Seq<char>)>,
    config: Option<Seq<char>>,
    env: Seq<(String, String)>,
) -> Seq<char>
    decreases s.len(),
{
    match find(s, "${"@) {
        None => s,
        Some(st) => {
            let body = s.skip(st + 2);
            match find_char(body, '}') {
                None => s,
                Some(e) => {
                    let key = body.take(e);
                    if st + 2 + e + 1 <= s.len() && st >= 0 && e >= 0 {
                        s.take(st) + match lookup(key, project, config, env) {
                            Some(v) => v,
                            None => "${"@ + key + "}"@,
                        } + expand(body.skip(e + 1), project, config, env)
                    } else {
                        s
                    }
                },
            }
        },
    }
}

proof fn lemma_expand_plain(s: Seq<char>, pj: Option<(Seq<char>, Seq<char>)>, cf: Option<Seq<char>>, env: Seq<(String, String)>)
    requires
        find(s, "${"@) is None || (find(s, "${"@) matches Some(st) && find_char(s.skip(st + 2), '}') is None),
    ensures
        expand(s, pj, cf, env) == s,
{
    reveal(expand);
}

proof fn lemma_expand_step(
    s: Seq<char>,
    pj: Option<(Seq<char>, Seq<char>)>,
    cf: Option<Seq<char>>,
    env: Seq<(String, String)>,
    st: int,
    e: int,
)
    requires
        find(s, "${"@) == Some(st),
        find_char(s.skip(st + 2), '}') == Some(e),
        0 <= st,
        0 <= e,
        st + 2 + e + 1 <= s.len(),
    ensures
        expand(s, pj, cf, env) == s.take(st) + match lookup(s.skip(st + 2).take(e), pj, cf, env) {
            Some(v) => v,
            None => "${"@ + s.skip(st + 2).take(e) + "}"@,
        } + expand(s.skip(st + 2).skip(e + 1), pj, cf, env),
{
    reveal(expand);
}

fn env_lookup_exec(env: &Vec<(String, String)>, key: &str) -> (res: Option<String>)
    ensures
        opt_view_s(res) == env_lookup(env@, key@, 0),
{
    let mut i: usize = 0;
    while i < env.len()
        invariant
            i <= env@.len(),
            env_lookup(env@, key@, i as int) == env_lookup(env@, key@, 0),
        decreases env.len() - i,
    {
        if str_eq(env[i].0.as_str(), key) {
            return Some(env[i].1.clone());
        }
        i += 1;
    }
    None
}

fn lookup_exec(
    key: &str,
    project: Option<(&str, &str)>,
    config: Option<&str>,
    env: &Vec<(String, String)>,
) -> (res: Option<String>)
    ensures
        opt_view_s(res) == lookup(
            key@,
            match project {
                Some(p) => Some((p.0@, p.1@)),
                None => None,
            },
            match config {
                Some(c) => Some(c@),
                None => None,
            },
            env@,
        ),
{
    if str_eq(key, "CONFIG") || str_eq(key, "config") {
        match config {
            Some(c) => Some(to_owned(c)),
            None => Some(to_owned("${CMAKE_BUILD_TYPE}")),
        }
    } else if str_eq(key, "app_name") {
        match project {
            Some(p) => Some(to_owned(p.0)),
            None => None,
        }
    } else if str_eq(key, "generator") {
        match project {
            Some(p) => Some(to_owned(p.1)),
            None => None,
        }
    } else {
        env_lookup_exec(env, key)
    }
}

/// One step of the expansion: the text up to and including the first
/// placeholder (expanded), and how many characters it took; the whole text
/// when no placeholder is left.
fn expand_step(
    rest: &str,
    project: Option<(&str, &str)>,
    config: Option<&str>,
    env: &Vec<(String, String)>,
) -> (res: (String, Option<usize>))
    ensures
        ({
            let pj = match project {
                Some(p) => Some((p.0@, p.1@)),
                None => None::<(Seq<char>, Seq<char>)>,
            };
            let cf = match config {
                Some(c) => Some(c@),
                None => None::<Seq<char>>,
            };
            match res.1 {
                None => res.0@ == expand(rest@, pj, cf, env@),
                Some(n) => 0 < n <= rest@.len() && res.0@ + expand(rest@.skip(n as int), pj, cf, env@) == expand(rest@, pj, cf, env@),
            }
        }),
{
    proof {
        reveal_strlit("${");
    }
    let ghost pj = match project {
        Some(p) => Some((p.0@, p.1@)),
        None => None::<(Seq<char>, Seq<char>)>,
    };
    let ghost cf = match config {
        Some(c) => Some(c@),
        None => None::<Seq<char>>,
    };
    let rv = chars_of(rest);
    let open = chars_of("${");
    assert(open@.len() == 2);
    match find_chars(&rv, &open) {
        None => {
            proof {
                lemma_expand_plain(rest@, pj, cf, env@);
            }
            (to_owned(rest), None)
        },
        Some(st) => {
            assert(crate::text::occurs_at(rv@, open@, st as int));
            assert(st + 2 <= rv.len());
            let body = string_from_range(&rv, st + 2, rv.len());
            assert(body@ =~= rv@.skip(st + 2));
            let bv = chars_of(body.as_str());
            match find_char_in(&bv, '}') {
                None => {
                    proof {
                        lemma_expand_plain(rest@, pj, cf, env@);
                    }
                    (to_owned(rest), None)
                },
                Some(e) => {
                    proof {
                        lemma_expand_step(rest@, pj, cf, env@, st as int, e as int);
                    }
                    let pre = string_from_range(&rv, 0, st);
                    assert(pre@ =~= rv@.take(st as int));
                    let key = string_from_range(&bv, 0, e);
                    assert(key@ =~= bv@.take(e as int));
                    let mut out = pre;
                    match lookup_exec(key.as_str(), project, config, env) {
                        Some(val) => push_str(&mut out, val.as_str()),
                        None => {
                            push_str(&mut out, "${");
                            push_str(&mut out, key.as_str());
                            push_str(&mut out, "}");
                        },
                    }
                    assert(bv@.skip(e + 1) =~= rv@.skip(st + 2 + e + 1));
                    (out, Some(st + 2 + e + 1))
                },
            }
        },
    }
}

/// Expands the placeholders of a text (see `expand`); `project` gives the
/// application name and generator, `env` the environment.
pub fn expand_placeholders(
    input: &str,
    project: Option<(&str, &str)>,
    config: Option<&str>,
    env: &Vec<(String, String)>,
) -> (res: String)
    ensures
        res@ == expand(
            input@,
            match project {
                Some(p) => Some((p.0@, p.1@)),
                None => None,
            },
            match config {
                Some(c) => Some(c@),
                None => None,
            },
            env@,
        ),
{
    let ghost pj = match project {
        Some(p) => Some((p.0@, p.1@)),
        None => None::<(Seq<char>, Seq<char>)>,
    };
    let ghost cf = match config {
        Some(c) => Some(c@),
        None => None::<Seq<char>>,
    };
    let v = chars_of(input);
    let mut out = String::new();
    let mut pos: usize = 0;
    assert(v@.skip(0) =~= input@);
    loop
        invariant
            pos <= v@.len(),
            v@ == input@,
            pj == match project {
                Some(p) => Some((p.0@, p.1@)),
                None => None::<(Seq<char>, Seq<char>)>,
            },
            cf == match config {
                Some(c) => Some(c@),
                None => None::<Seq<char>>,
            },
            out@ + expand(v@.skip(pos as int), pj, cf, env@) == expand(input@, pj, cf, env@),
        decreases v@.len() - pos,
    {
        let rest = string_from_range(&v, pos, v.len());
        assert(rest@ =~= v@.skip(pos as int));
        let (piece, used) = expand_step(rest.as_str(), project, config, env);
        push_str(&mut out, piece.as_str());
        match used {
            None => {
                return out;
            },
            Some(n) => {
                assert(rest@.skip(n as int) =~= v@.skip(pos + n));
                pos = pos + n;
            },
        }
    }
}

/// A text without `${` expands to itself.
pub proof fn lemma_expand_no_placeholder(
    s: Seq<char>,
    project: Option<(Seq<char>, Seq<char>)>,
    config: Option<Seq<char>>,
    env: Seq<(String, String)>,
)
    requires
        !crate::text::contains(s, "${"@),
    ensures
        expand(s, project, config, env) == s,
{
    lemma_expand_plain(s, project, config, env);
}

} // verus!
