//! The line-by-line difference between an expected and an actual output,
//! as the `similar` crate computes it.
use vstd::prelude::*;
use similar::{ChangeTag, TextDiff};

use crate::output::{normalized, normalized_output};

verus! {

/// What happened to one line between the old text and the new one.
#[derive(Clone, Copy, Debug, PartialEq, Eq, Structural)]
pub enum DiffTag {
    /// The line is in both.
    Equal,
    /// The line is only in the old text.
    Delete,
    /// The line is only in the new text.
    Insert,
}

/// The changes, line by line, that `similar::TextDiff::from_lines` finds
/// between `old` and `new`, each with its tag and its text as the change's
/// `Display` writes it (the line, with a line ending added if it had none).
pub uninterp spec fn line_diff_of(old: Seq<char>, new: Seq<char>) -> Seq<(DiffTag, Seq<char>)>;

/// The texts held by a vector of changes.
pub open spec fn changes_view(changes: Seq<(DiffTag, String)>) -> Seq<(DiffTag, Seq<char>)> {
    changes.map_values(|c: (DiffTag, String)| (c.0, c.1@))
}

/// `similar::TextDiff::from_lines(old, new).iter_all_changes()`, each change
/// turned into its tag and its `Display` text. The diff runs with the
/// default configuration, which sets no deadline, so the result depends on
/// `old` and `new` alone and is named [`line_diff_of`].
#[verifier::external_body]
pub(crate) fn line_diff(old: &str, new: &str) -> (r: Vec<(DiffTag, String)>)
    ensures
        changes_view(r@) == line_diff_of(old@, new@),
{
    let diff = TextDiff::from_lines(old, new);
    let mut changes = Vec::new();
    for change in diff.iter_all_changes() {
        let tag = match change.tag() {
            ChangeTag::Equal => DiffTag::Equal,
            ChangeTag::Delete => DiffTag::Delete,
            ChangeTag::Insert => DiffTag::Insert,
        };
        changes.push((tag, change.to_string()));
    }
    changes
}

/// The difference, line by line, between an expected and an actual output
/// once both are normalized, which is what a wrong answer shows.
pub fn output_diff(expected: &str, actual: &str) -> (r: Vec<(DiffTag, String)>)
    ensures
        changes_view(r@) == line_diff_of(normalized(expected@), normalized(actual@)),
{
    let e = normalized_output(expected);
    let a = normalized_output(actual);
    line_diff(e.as_str(), a.as_str())
}

} // verus!
