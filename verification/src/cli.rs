//! The command line: the action of a rule added with `--add`.

use vstd::prelude::*;

use crate::state::Action;
use crate::text::{owned, str_eq};

verus! {

/// Why `--add` cannot build a rule.
#[derive(Clone, Copy, Debug, PartialEq, Eq, Structural)]
pub enum AddRuleError {
    /// The action is none of close, close2, workspace, tray.
    InvalidAction,
    /// The action is workspace but no workspace number was given.
    MissingWorkspace,
}

/// The action named by a (lower-cased) word, with the workspace number for
/// `workspace`.
pub open spec fn action_named(word: Seq<char>, workspace: Option<u32>) -> Result<Action, AddRuleError> {
    if word == "close"@ {
        Ok(Action::Close)
    } else if word == "close2"@ {
        Ok(Action::Close2)
    } else if word == "workspace"@ {
        match workspace {
            Some(ws) => Ok(Action::Workspace(ws)),
            None => Err(AddRuleError::MissingWorkspace),
        }
    } else if word == "tray"@ {
        Ok(Action::HideToTray)
    } else {
        Err(AddRuleError::InvalidAction)
    }
}

/// The action named by an already lower-cased word.
pub fn action_from_word(word: &str, workspace: Option<u32>) -> (r: Result<Action, AddRuleError>)
    ensures
        r == action_named(word@, workspace),
{
    if str_eq(word, "close") {
        Ok(Action::Close)
    } else if str_eq(word, "close2") {
        Ok(Action::Close2)
    } else if str_eq(word, "workspace") {
        match workspace {
            Some(ws) => Ok(Action::Workspace(ws)),
            None => Err(AddRuleError::MissingWorkspace),
        }
    } else if str_eq(word, "tray") {
        Ok(Action::HideToTray)
    } else {
        Err(AddRuleError::InvalidAction)
    }
}

/// The characters of the lower-case form of `s`, as `str::to_lowercase`
/// gives it.
pub uninterp spec fn lowercased(s: Seq<char>) -> Seq<char>;

/// Lower-cases a string.
///
/// Trusted: `str::to_lowercase` is a function of its argument alone (Unicode
/// case mapping); its result is left to the name `lowercased`.
#[verifier::external_body]
fn to_lower(s: &str) -> (r: String)
    ensures
        r@ == lowercased(s@),
{
    s.to_lowercase()
}

/// The action given to `--add`: the word is compared case-insensitively.
pub fn cli_action(word: &str, workspace: Option<u32>) -> (r: Result<Action, AddRuleError>)
    ensures
        r == action_named(lowercased(word@), workspace),
{
    let lower = to_lower(word);
    action_from_word(lower.as_str(), workspace)
}

/// The message `--add` fails with.
pub fn add_rule_message(e: AddRuleError) -> (r: String)
    ensures
        e == AddRuleError::InvalidAction ==> r@ == "Invalid action. Use close, close2, workspace, or tray."@,
        e == AddRuleError::MissingWorkspace ==> r@ == "Missing --workspace #"@,
{
    match e {
        AddRuleError::InvalidAction => owned("Invalid action. Use close, close2, workspace, or tray."),
        AddRuleError::MissingWorkspace => owned("Missing --workspace #"),
    }
}

} // verus!
