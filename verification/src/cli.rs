//! The commands of the command line, as plain values.

use vstd::prelude::*;
use crate::text::{trim, find_char, opt_view_s, to_owned, trim_str, chars_of, string_from_range, find_char_in};

verus! {

/// The parsed command line.
#[derive(Debug)]
pub struct Cli {
    pub command: Commands,
}

/// The commands of `triton`.
#[derive(Debug)]
pub enum Commands {
    /// Initialize a project (`.` initializes the current folder minimally).
    Init { name: Option<String>, generator: String, cxx_std: String },
    /// Add one or more packages.
    Add { items: Vec<String>, features: Option<String>, host: bool },
    /// Link component A to component B.
    Link { edge: String, to: Option<String> },
    /// Unlink A from B, or from every component.
    Unlink { edge: String, to: Option<String> },
    /// Remove a package or unlink it from a specific component.
    Remove { pkg: String, component: Option<String>, features: Option<String>, host: bool },
    /// Re-generate the managed CMake blocks.
    Generate,
    /// Build the project, or one component and what it links, for an
    /// architecture when one is asked for.
    Build {
        path: String,
        component: Option<String>,
        config: String,
        arch: Option<String>,
        clean: bool,
        cleanf: bool,
    },
    /// Run a component.
    Run { path: String, component: Option<String>, config: String, args: Vec<String> },
    /// Run the tests through CTest.
    Test { path: String, config: String },
    /// CMake installation helpers.
    Cmake { cmd: CmakeCommands },
    /// Remove a component entirely.
    RemoveComponent { name: String },
    /// Search for the CMake package of an installed vcpkg dependency.
    FindTarget { dep: String },
    /// Any other word names a script; the rest are its arguments.
    Script(Vec<String>),
}

/// The subcommands of `triton cmake`.
#[derive(Debug)]
pub enum CmakeCommands {
    /// Ensure CMake of at least a version is installed.
    Install { version: Option<String> },
}

/// Why an edge argument cannot be read.
#[derive(Debug)]
pub enum EdgeError {
    /// Neither `A B` nor `A:B` with two non-blank names.
    Malformed,
}

impl EdgeError {
    /// The message shown for the error.
    pub fn message(&self) -> (res: String)
        ensures
            res@ == "Use `triton link A B` or `triton link A:B`"@,
    {
        to_owned("Use `triton link A B` or `triton link A:B`")
    }
}

/// The two names of an edge: `A` and `B` when both are given, else the
/// trimmed sides of `A:B` when both are non-blank.
pub open spec fn spec_parse_edge(edge: Seq<char>, to: Option<Seq<char>>) -> Option<(Seq<char>, Seq<char>)> {
    match to {
        Some(t) => Some((edge, t)),
        None => match find_char(edge, ':') {
            Some(i) => if trim(edge.take(i)).len() > 0 && trim(edge.skip(i + 1)).len() > 0 {
                Some((trim(edge.take(i)), trim(edge.skip(i + 1))))
            } else {
                None
            },
            None => None,
        },
    }
}

/// Reads the edge of `triton link` / `triton unlink` (see `spec_parse_edge`).
pub fn parse_edge(edge: &str, to: Option<&str>) -> (res: Result<(String, String), EdgeError>)
    ensures
        match res {
            Ok((a, b)) => spec_parse_edge(edge@, match to {
                Some(t) => Some(t@),
                None => None,
            }) == Some((a@, b@)),
            Err(_) => spec_parse_edge(edge@, match to {
                Some(t) => Some(t@),
                None => None,
            }) is None,
        },
{
    match to {
        Some(t) => Ok((to_owned(edge), to_owned(t))),
        None => {
            let v = chars_of(edge);
            match find_char_in(&v, ':') {
                Some(i) => {
                    let a = string_from_range(&v, 0, i);
                    let b = string_from_range(&v, i + 1, v.len());
                    assert(a@ =~= edge@.take(i as int));
                    assert(b@ =~= edge@.skip(i + 1));
                    let from = trim_str(a.as_str());
                    let to = trim_str(b.as_str());
                    if chars_of(from.as_str()).len() > 0 && chars_of(to.as_str()).len() > 0 {
                        Ok((from, to))
                    } else {
                        Err(EdgeError::Malformed)
                    }
                },
                None => Err(EdgeError::Malformed),
            }
        },
    }
}


/// The edge of `triton unlink`: that of `triton link` when one is given
/// (`A B` or `A:B`), else a single trimmed non-blank name without `:`,
/// which is unlinked from every component.
pub open spec fn spec_parse_unlink_edge(edge: Seq<char>, to: Option<Seq<char>>) -> Option<(Seq<char>, Option<Seq<char>>)> {
    match spec_parse_edge(edge, to) {
        Some((a, b)) => Some((a, Some(b))),
        None => if to is None && find_char(edge, ':') is None && trim(edge).len() > 0 {
            Some((trim(edge), None))
        } else {
            None
        },
    }
}

/// Reads the edge of `triton unlink` (see `spec_parse_unlink_edge`).
pub fn parse_unlink_edge(edge: &str, to: Option<&str>) -> (res: Result<(String, Option<String>), EdgeError>)
    ensures
        match res {
            Ok((a, b)) => spec_parse_unlink_edge(edge@, match to {
                Some(t) => Some(t@),
                None => None,
            }) == Some((a@, opt_view_s(b))),
            Err(_) => spec_parse_unlink_edge(edge@, match to {
                Some(t) => Some(t@),
                None => None,
            }) is None,
        },
{
    match parse_edge(edge, to) {
        Ok((a, b)) => Ok((a, Some(b))),
        Err(e) => {
            if to.is_none() && find_char_in(&chars_of(edge), ':').is_none() {
                let t = trim_str(edge);
                if chars_of(t.as_str()).len() > 0 {
                    return Ok((t, None));
                }
            }
            Err(e)
        },
    }
}

} // verus!
