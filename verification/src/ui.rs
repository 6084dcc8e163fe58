//! The decisions of the settings window: which page it opens on, how the
//! rule form becomes a rule, how rules are labelled, and what the update
//! check and the compatibility page report.

use vstd::prelude::*;

use crate::state::{Action, AppRule};
use crate::text::{
    append_chars, chars_of, contains, decimal, decimal_chars, has_infix, lossy_string, lossy_utf8,
    owned, parse_u32, parsed_u32, same_chars, string_of, trim, trimmed,
};
use crate::CURRENT_VERSION;

verus! {

/// A page of the settings window.
#[derive(Clone, Copy, Debug, PartialEq, Eq, Structural)]
pub enum Page {
    /// The first-run notice.
    Warning,
    /// The request to install the desktop entry.
    Desktop,
    /// Compatibility and settings.
    Compat,
    /// The list of rules.
    Main,
}

/// The page the window opens on: the first-run notice until it was
/// acknowledged, then the desktop integration until it is installed (and
/// its file exists), then the compatibility page once per new version, and
/// otherwise the rules.
pub open spec fn opening_page(
    shown_warning: bool,
    desktop_installed: bool,
    desktop_exists: bool,
    last_version: Option<Seq<char>>,
) -> Page {
    if !shown_warning {
        Page::Warning
    } else if !desktop_installed || !desktop_exists {
        Page::Desktop
    } else if last_version != Some(CURRENT_VERSION@) {
        Page::Compat
    } else {
        Page::Main
    }
}

/// The page the settings window opens on.
pub fn start_page(
    shown_warning: bool,
    desktop_installed: bool,
    desktop_exists: bool,
    last_version: &Option<String>,
) -> (r: Page)
    ensures
        r == opening_page(
            shown_warning,
            desktop_installed,
            desktop_exists,
            match last_version {
                Some(v) => Some(v@),
                None => None,
            },
        ),
{
    if !shown_warning {
        Page::Warning
    } else if !desktop_installed || !desktop_exists {
        Page::Desktop
    } else {
        let current = match last_version {
            Some(v) => same_chars(chars_of(v.as_str()).as_slice(), chars_of(CURRENT_VERSION).as_slice()),
            None => false,
        };
        if current {
            Page::Main
        } else {
            Page::Compat
        }
    }
}

/// The page shown once the first-run notice is acknowledged.
pub fn page_after_notice(desktop_installed: bool, desktop_exists: bool) -> (r: Page)
    ensures
        r == (if !desktop_installed || !desktop_exists {
            Page::Desktop
        } else {
            Page::Main
        }),
{
    if !desktop_installed || !desktop_exists {
        Page::Desktop
    } else {
        Page::Main
    }
}

/// The short label of an action in the list of rules.
pub open spec fn label_of(a: Action) -> Seq<char> {
    match a {
        Action::Close => "Close"@,
        Action::Close2 => "Close 2x"@,
        Action::Workspace(n) => "WS "@ + decimal(n as nat),
        Action::HideToTray => "Tray"@,
    }
}

/// The label of an action in the list of rules.
pub fn action_label(a: Action) -> (r: String)
    ensures
        r@ == label_of(a),
{
    match a {
        Action::Close => owned("Close"),
        Action::Close2 => owned("Close 2x"),
        Action::Workspace(n) => {
            let mut t = chars_of("WS ");
            append_chars(&mut t, decimal_chars(n as u64).as_slice());
            string_of(t.as_slice())
        },
        Action::HideToTray => owned("Tray"),
    }
}

/// The action chosen in the form: the entries of the drop-down are "To
/// Tray", "Close", "Close 2x" and "Workspace"; the workspace number is read
/// from its field, and is 1 when the field does not hold a number.
pub open spec fn chosen_action(selected: u32, workspace_text: Seq<char>) -> Action {
    if selected == 0 {
        Action::HideToTray
    } else if selected == 1 {
        Action::Close
    } else if selected == 2 {
        Action::Close2
    } else {
        Action::Workspace(
            match parsed_u32(workspace_text) {
                Some(n) => n,
                None => 1,
            },
        )
    }
}

/// The action chosen in the rule form.
pub fn action_choice(selected: u32, workspace_text: &str) -> (r: Action)
    ensures
        r == chosen_action(selected, workspace_text@),
{
    if selected == 0 {
        Action::HideToTray
    } else if selected == 1 {
        Action::Close
    } else if selected == 2 {
        Action::Close2
    } else {
        let ws = match parse_u32(chars_of(workspace_text).as_slice()) {
            Some(n) => n,
            None => 1,
        };
        Action::Workspace(ws)
    }
}

/// The rule the form describes, or `None` when the window class or the
/// command is empty (the form is then ignored).
pub fn rule_from_form(name: &str, command: &str, selected: u32, workspace_text: &str) -> (r:
    Option<AppRule>)
    ensures
        match r {
            Some(rule) => name@.len() > 0 && command@.len() > 0 && rule.name@ == name@
                && rule.command@ == command@ && rule.action == chosen_action(
                selected,
                workspace_text@,
            ),
            None => name@.len() == 0 || command@.len() == 0,
        },
{
    let n = chars_of(name);
    let c = chars_of(command);
    if n.len() == 0 || c.len() == 0 {
        return None;
    }
    let action = action_choice(selected, workspace_text);
    Some(AppRule { name: string_of(n.as_slice()), command: string_of(c.as_slice()), action })
}

/// The message of a failed update check.
pub const UPDATE_CHECK_FAILED: &'static str = "Failed to check for updates";

/// What the update check concludes from the download of the published
/// version: on success, the trimmed text, unless it is empty or a "Not
/// Found" page, is the latest version, and whether it equals this one.
pub open spec fn update_check(succeeded: bool, reply: Seq<char>) -> Result<(bool, Seq<char>), Seq<char>> {
    let latest = trimmed(reply);
    if succeeded && latest.len() > 0 && !has_infix(latest, "Not Found"@) {
        Ok((latest == CURRENT_VERSION@, latest))
    } else {
        Err(UPDATE_CHECK_FAILED@)
    }
}

/// Law: the first-run notice comes before every other page: while it has
/// not been shown the window opens on it, whatever the state of the desktop
/// entry and the last version seen.  Once shown, the desktop page comes
/// exactly when the entry is missing, and the rules page exactly when the
/// last version seen is this one.
pub proof fn lemma_first_run_notice_first()
    ensures
        forall|installed: bool, exists_: bool, last: Option<Seq<char>>|
            #[trigger] opening_page(false, installed, exists_, last) == Page::Warning,
        forall|installed: bool, exists_: bool, last: Option<Seq<char>>|
            #[trigger] opening_page(true, installed, exists_, last) == Page::Desktop <==> (
            !installed || !exists_),
        forall|installed: bool, exists_: bool, last: Option<Seq<char>>|
            #[trigger] opening_page(true, installed, exists_, last) == Page::Main <==> (installed
                && exists_ && last == Some(CURRENT_VERSION@)),
        forall|shown: bool, installed: bool, exists_: bool, last: Option<Seq<char>>|
            #[trigger] opening_page(shown, installed, exists_, last) == Page::Warning <==> !shown,
        forall|installed: bool, exists_: bool, last: Option<Seq<char>>|
            #[trigger] opening_page(true, installed, exists_, last) == Page::Compat <==> (installed
                && exists_ && last != Some(CURRENT_VERSION@)),
{
}

/// Law: a successful check reports the trimmed published text, and calls it
/// the latest exactly when it equals this version character for character;
/// it fails, with the one message, exactly when the download failed or gave
/// an empty text or a "Not Found" page.
pub proof fn lemma_update_check_compares_whole_version()
    ensures
        forall|succeeded: bool, reply: Seq<char>|
            #[trigger] update_check(succeeded, reply) is Ok <==> (succeeded && trimmed(reply).len()
                > 0 && !has_infix(trimmed(reply), "Not Found"@)),
        forall|succeeded: bool, reply: Seq<char>|
            (#[trigger] update_check(succeeded, reply)) matches Ok((same, v)) ==> v == trimmed(reply)
                && (same <==> v == CURRENT_VERSION@),
        forall|succeeded: bool, reply: Seq<char>|
            (#[trigger] update_check(succeeded, reply)) matches Err(e) ==> e == UPDATE_CHECK_FAILED@,
{
}

/// Interprets the download of the published version: `succeeded` tells
/// whether the download worked, `output` is what it printed.
pub fn version_check(succeeded: bool, output: &[u8]) -> (r: Result<(bool, String), String>)
    ensures
        match (r, update_check(succeeded, lossy_utf8(output@))) {
            (Ok((same, v)), Ok((same2, v2))) => same == same2 && v@ == v2,
            (Err(e), Err(e2)) => e@ == e2,
            _ => false,
        },
{
    published_version(succeeded, lossy_string(output).as_str())
}

/// Interprets the (decoded) reply of the version download: whether it is
/// the running version, and the published version; or why the check
/// failed.
pub fn published_version(succeeded: bool, reply: &str) -> (r: Result<(bool, String), String>)
    ensures
        match (r, update_check(succeeded, reply@)) {
            (Ok((same, v)), Ok((same2, v2))) => same == same2 && v@ == v2,
            (Err(e), Err(e2)) => e@ == e2,
            _ => false,
        },
{
    if succeeded {
        let text = chars_of(reply);
        let latest = trim(text.as_slice());
        if latest.len() > 0 && !contains(latest.as_slice(), chars_of("Not Found").as_slice()) {
            let same = same_chars(latest.as_slice(), chars_of(CURRENT_VERSION).as_slice());
            return Ok((same, string_of(latest.as_slice())));
        }
    }
    Err(owned(UPDATE_CHECK_FAILED))
}

/// How an item of the compatibility page is marked.
#[derive(Clone, Copy, Debug, PartialEq, Eq, Structural)]
pub enum ItemStatus {
    Fine,
    Error,
    Warning,
    Info,
}

/// The compatibility item for the application version.
#[derive(Clone, Debug)]
pub struct VersionItem {
    pub status: ItemStatus,
    pub text: String,
    pub button: String,
    /// Whether the button opens the release page (else it checks again).
    pub opens_releases: bool,
}

/// The text shown when this version is the latest.
pub open spec fn up_to_date_text() -> Seq<char> {
    "Current: v"@ + CURRENT_VERSION@ + ". You have the latest version."@
}

/// The text shown when a newer version exists.
pub open spec fn update_text(latest: Seq<char>) -> Seq<char> {
    "Update available: v"@ + latest + ". Visit GitHub to download."@
}

/// The version item for the result of the update check.
pub fn version_item(result: &Result<(bool, String), String>) -> (r: VersionItem)
    ensures
        match result {
            Ok((true, _)) => r.status == ItemStatus::Fine && r.text@ == up_to_date_text()
                && r.button@ == "CHECK"@ && !r.opens_releases,
            Ok((false, latest)) => r.status == ItemStatus::Info && r.text@ == update_text(latest@)
                && r.button@ == "UPDATE"@ && r.opens_releases,
            Err(e) => r.status == ItemStatus::Warning && r.text@ == e@ && r.button@ == "RETRY"@
                && !r.opens_releases,
        },
{
    match result {
        Ok((true, _)) => {
            let mut t = chars_of("Current: v");
            append_chars(&mut t, chars_of(CURRENT_VERSION).as_slice());
            append_chars(&mut t, chars_of(". You have the latest version.").as_slice());
            VersionItem {
                status: ItemStatus::Fine,
                text: string_of(t.as_slice()),
                button: owned("CHECK"),
                opens_releases: false,
            }
        },
        Ok((false, latest)) => {
            let mut t = chars_of("Update available: v");
            append_chars(&mut t, chars_of(latest.as_str()).as_slice());
            append_chars(&mut t, chars_of(". Visit GitHub to download.").as_slice());
            VersionItem {
                status: ItemStatus::Info,
                text: string_of(t.as_slice()),
                button: owned("UPDATE"),
                opens_releases: true,
            }
        },
        Err(e) => VersionItem {
            status: ItemStatus::Warning,
            text: owned(e.as_str()),
            button: owned("RETRY"),
            opens_releases: false,
        },
    }
}

/// The mark of the Hyprland item: fine inside Hyprland, an error elsewhere.
pub fn environment_status(is_hyprland: bool) -> (r: ItemStatus)
    ensures
        r == (if is_hyprland {
            ItemStatus::Fine
        } else {
            ItemStatus::Error
        }),
{
    if is_hyprland {
        ItemStatus::Fine
    } else {
        ItemStatus::Error
    }
}

/// The mark of the desktop integration item: fine when the desktop entry
/// exists, a warning (with a fix button) when it does not.
pub fn desktop_status(desktop_exists: bool) -> (r: ItemStatus)
    ensures
        r == (if desktop_exists {
            ItemStatus::Fine
        } else {
            ItemStatus::Warning
        }),
{
    if desktop_exists {
        ItemStatus::Fine
    } else {
        ItemStatus::Warning
    }
}

/// Whether the auto-start switch may take the requested position: turning
/// it on needs the desktop integration (recorded or present on disk).
pub fn autostart_allowed(requested: bool, desktop_installed: bool, desktop_exists: bool) -> (r:
    bool)
    ensures
        r == (!requested || desktop_installed || desktop_exists),
{
    !requested || desktop_installed || desktop_exists
}

/// The text and style class of the status badge.
pub fn status_badge(auto_start: bool) -> (r: (String, String))
    ensures
        auto_start ==> r.0@ == "ACTIVE"@ && r.1@ == "active"@,
        !auto_start ==> r.0@ == "IDLE"@ && r.1@ == "inactive"@,
{
    if auto_start {
        (owned("ACTIVE"), owned("active"))
    } else {
        (owned("IDLE"), owned("inactive"))
    }
}

} // verus!
