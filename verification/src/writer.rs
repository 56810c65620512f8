//! The decision whether a rendered module has to be written out.
//!
//! Writing a file marks it as changed, and everything built from it is built again. So a
//! module is written only where the target does not hold its text already.

use crate::text::{is_same_text, text_of};
use vstd::prelude::*;

verus! {

/// What to do with the target, given what it holds.
#[derive(Clone, Copy, Debug, PartialEq, Eq, Structural)]
pub enum WriteAction {
    /// The target holds the text already: leave it untouched.
    Keep,
    /// The target is missing or holds something else: create or truncate it and write the
    /// text in full.
    Overwrite,
}

/// The action for `text` on a target that holds `existing`; `None` stands for a target that
/// is missing or cannot be read.
pub open spec fn action_for(existing: Option<Seq<char>>, text: Seq<char>) -> WriteAction {
    if existing == Some(text) {
        WriteAction::Keep
    } else {
        WriteAction::Overwrite
    }
}

/// What the target holds once `action` has been carried out with success.
pub open spec fn content_after(
    existing: Option<Seq<char>>,
    text: Seq<char>,
    action: WriteAction,
) -> Option<Seq<char>> {
    match action {
        WriteAction::Keep => existing,
        WriteAction::Overwrite => Some(text),
    }
}

/// Decides what to do with a target that holds `existing`, when `text` is to stand there.
pub fn write_action(existing: Option<&str>, text: &str) -> (action: WriteAction)
    ensures
        action == action_for(text_of(existing), text@),
{
    match existing {
        Some(current) => {
            if is_same_text(current, text) {
                WriteAction::Keep
            } else {
                WriteAction::Overwrite
            }
        },
        None => WriteAction::Overwrite,
    }
}

} // verus!
