//! Deciding file writes: a file is written only when its text changes.

use vstd::prelude::*;
use crate::text::str_eq;

verus! {

/// What writing a text to a file does.
#[derive(Debug, PartialEq, Eq, Structural, Clone, Copy)]
pub enum Change {
    /// The file did not exist and is created.
    Created,
    /// The file held another text and is overwritten.
    Modified,
    /// The file already holds the text; nothing is written.
    Unchanged,
}

/// The change that writing `content` makes to a file holding `existing`
/// (`None` when it does not exist).
pub fn change_for(existing: Option<&str>, content: &str) -> (res: Change)
    ensures
        res == match existing {
            None => Change::Created,
            Some(e) => if e@ == content@ { Change::Unchanged } else { Change::Modified },
        },
{
    match existing {
        None => Change::Created,
        Some(e) => {
            if str_eq(e, content) {
                Change::Unchanged
            } else {
                Change::Modified
            }
        },
    }
}

/// A write is needed unless the file already holds the text.
pub fn needs_write(c: Change) -> (res: bool)
    ensures
        res == (c != Change::Unchanged),
{
    match c {
        Change::Unchanged => false,
        _ => true,
    }
}

} // verus!
