use totray::cli::{action_from_word, add_rule_message, cli_action, AddRuleError};
use totray::state::Action;
use totray::ui::{
    action_choice, action_label, autostart_allowed, desktop_status, environment_status,
    page_after_notice, published_version, rule_from_form, start_page, status_badge, version_check,
    version_item,
    ItemStatus, Page, UPDATE_CHECK_FAILED,
};
use totray::CURRENT_VERSION;

#[test]
fn opening_pages() {
    let seen = Some(CURRENT_VERSION.to_string());
    assert_eq!(start_page(false, true, true, &seen), Page::Warning);
    assert_eq!(start_page(true, false, true, &seen), Page::Desktop);
    assert_eq!(start_page(true, true, false, &seen), Page::Desktop);
    assert_eq!(start_page(true, true, true, &None), Page::Compat);
    assert_eq!(start_page(true, true, true, &Some("0.0.9".to_string())), Page::Compat);
    assert_eq!(start_page(true, true, true, &seen), Page::Main);
    assert_eq!(page_after_notice(true, true), Page::Main);
    assert_eq!(page_after_notice(true, false), Page::Desktop);
}

#[test]
fn action_labels() {
    assert_eq!(action_label(Action::Close), "Close");
    assert_eq!(action_label(Action::Close2), "Close 2x");
    assert_eq!(action_label(Action::Workspace(12)), "WS 12");
    assert_eq!(action_label(Action::Workspace(0)), "WS 0");
    assert_eq!(action_label(Action::HideToTray), "Tray");
}

#[test]
fn form_choices() {
    assert_eq!(action_choice(0, ""), Action::HideToTray);
    assert_eq!(action_choice(1, "9"), Action::Close);
    assert_eq!(action_choice(2, ""), Action::Close2);
    assert_eq!(action_choice(3, "5"), Action::Workspace(5));
    assert_eq!(action_choice(3, "+7"), Action::Workspace(7));
    assert_eq!(action_choice(3, ""), Action::Workspace(1));
    assert_eq!(action_choice(3, "x"), Action::Workspace(1));
    assert_eq!(action_choice(3, "-2"), Action::Workspace(1));
    assert_eq!(action_choice(3, "4294967296"), Action::Workspace(1));
    assert_eq!(action_choice(3, "004294967295"), Action::Workspace(4294967295));
}

#[test]
fn form_needs_name_and_command() {
    assert!(rule_from_form("", "firefox", 0, "").is_none());
    assert!(rule_from_form("firefox", "", 0, "").is_none());
    let r = rule_from_form("firefox", "firefox --private", 3, "2").unwrap();
    assert_eq!(r.name, "firefox");
    assert_eq!(r.command, "firefox --private");
    assert_eq!(r.action, Action::Workspace(2));
}

#[test]
fn update_check_results() {
    let same = format!("  {CURRENT_VERSION}\n");
    assert_eq!(version_check(true, same.as_bytes()), Ok((true, CURRENT_VERSION.to_string())));
    assert_eq!(version_check(true, b"9.9.9\n"), Ok((false, "9.9.9".to_string())));
    assert_eq!(version_check(true, b"404: Not Found"), Err(UPDATE_CHECK_FAILED.to_string()));
    assert_eq!(version_check(true, b" \n"), Err(UPDATE_CHECK_FAILED.to_string()));
    assert_eq!(version_check(false, b"9.9.9"), Err(UPDATE_CHECK_FAILED.to_string()));
    assert_eq!(version_check(true, b"caf\xc3\xa9"), Ok((false, "caf\u{e9}".to_string())));
    assert_eq!(version_check(true, b"1.\xff\n"), Ok((false, "1.\u{fffd}".to_string())));
}

#[test]
fn published_version_from_text() {
    assert_eq!(published_version(true, " 9.9.9\n"), Ok((false, "9.9.9".to_string())));
    assert_eq!(
        published_version(true, &format!("{CURRENT_VERSION}\n")),
        Ok((true, CURRENT_VERSION.to_string()))
    );
    assert_eq!(published_version(true, "Not Found"), Err(UPDATE_CHECK_FAILED.to_string()));
    assert_eq!(published_version(false, "9.9.9"), Err(UPDATE_CHECK_FAILED.to_string()));
}

#[test]
fn version_items() {
    let ok = version_item(&Ok((true, CURRENT_VERSION.to_string())));
    assert_eq!(ok.status, ItemStatus::Fine);
    assert_eq!(ok.text, format!("Current: v{CURRENT_VERSION}. You have the latest version."));
    assert_eq!(ok.button, "CHECK");
    assert!(!ok.opens_releases);
    let newer = version_item(&Ok((false, "2.0.0".to_string())));
    assert_eq!(newer.status, ItemStatus::Info);
    assert_eq!(newer.text, "Update available: v2.0.0. Visit GitHub to download.");
    assert_eq!(newer.button, "UPDATE");
    assert!(newer.opens_releases);
    let failed = version_item(&Err("Failed to check for updates".to_string()));
    assert_eq!(failed.status, ItemStatus::Warning);
    assert_eq!(failed.text, "Failed to check for updates");
    assert_eq!(failed.button, "RETRY");
}

#[test]
fn compatibility_marks() {
    assert_eq!(environment_status(true), ItemStatus::Fine);
    assert_eq!(environment_status(false), ItemStatus::Error);
    assert_eq!(desktop_status(true), ItemStatus::Fine);
    assert_eq!(desktop_status(false), ItemStatus::Warning);
    assert!(autostart_allowed(true, true, false));
    assert!(autostart_allowed(true, false, true));
    assert!(!autostart_allowed(true, false, false));
    assert!(autostart_allowed(false, false, false));
    assert_eq!(status_badge(true), ("ACTIVE".to_string(), "active".to_string()));
    assert_eq!(status_badge(false), ("IDLE".to_string(), "inactive".to_string()));
}

#[test]
fn cli_actions() {
    assert_eq!(cli_action("close", None), Ok(Action::Close));
    assert_eq!(cli_action("CLOSE2", None), Ok(Action::Close2));
    assert_eq!(cli_action("Workspace", Some(3)), Ok(Action::Workspace(3)));
    assert_eq!(cli_action("workspace", None), Err(AddRuleError::MissingWorkspace));
    assert_eq!(cli_action("Tray", None), Ok(Action::HideToTray));
    assert_eq!(cli_action("minimize", None), Err(AddRuleError::InvalidAction));
    assert_eq!(action_from_word("TRAY", None), Err(AddRuleError::InvalidAction));
    assert_eq!(
        add_rule_message(AddRuleError::InvalidAction),
        "Invalid action. Use close, close2, workspace, or tray."
    );
    assert_eq!(add_rule_message(AddRuleError::MissingWorkspace), "Missing --workspace #");
}
