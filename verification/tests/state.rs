use totray::state::{Action, AppRule, AppState, LOG_LIMIT};

fn rule(name: &str, command: &str, action: Action) -> AppRule {
    AppRule { name: name.to_string(), command: command.to_string(), action }
}

#[test]
fn test_default_state() {
    let state = AppState::default();
    assert_eq!(state.apps.len(), 0);
    assert_eq!(state.launch_delay, 1500);
    assert!(state.notifications);
    assert!(!state.auto_start);
}

#[test]
fn default_state_other_fields() {
    let state = AppState::default();
    assert!(!state.silent_mode);
    assert!(!state.multi_launch);
    assert!(state.last_run_version.is_none());
    assert!(!state.shown_warning);
    assert!(!state.desktop_installed);
    assert!(state.hidden_apps.is_empty());
    assert!(state.logs.console_text("firefox").is_none());
}

#[test]
fn add_and_remove_rules() {
    let mut state = AppState::default();
    state.add_rule(rule("firefox", "firefox", Action::HideToTray));
    state.add_rule(rule("discord", "vesktop", Action::Close2));
    state.add_rule(rule("firefox", "firefox --new", Action::Workspace(3)));
    assert_eq!(state.apps.len(), 3);
    state.remove_rules_named("firefox");
    assert_eq!(state.apps.len(), 1);
    assert_eq!(state.apps[0].name, "discord");
    assert_eq!(state.apps[0].command, "vesktop");
    assert_eq!(state.apps[0].action, Action::Close2);
    state.remove_rules_named("absent");
    assert_eq!(state.apps.len(), 1);
}

#[test]
fn hidden_windows_listed_once() {
    let mut state = AppState::default();
    state.mark_hidden("telegram");
    state.mark_hidden("telegram");
    state.mark_hidden("spotify");
    assert_eq!(state.hidden_apps, vec!["telegram".to_string(), "spotify".to_string()]);
}

#[test]
fn show_after_hide_removes_window() {
    let mut state = AppState::default();
    state.mark_hidden("telegram");
    state.mark_hidden("spotify");
    state.unhide("telegram");
    assert_eq!(state.hidden_apps, vec!["spotify".to_string()]);
    state.unhide("telegram");
    assert_eq!(state.hidden_apps, vec!["spotify".to_string()]);
}

#[test]
fn tool_tip_counts() {
    let mut state = AppState::default();
    assert_eq!(state.tool_tip_description(), "Managing 0 active rules \u{2022} 0 apps hidden");
    for i in 0..12 {
        state.add_rule(rule(&format!("app{i}"), "x", Action::Close));
    }
    state.mark_hidden("a");
    state.mark_hidden("b");
    assert_eq!(state.tool_tip_description(), "Managing 12 active rules \u{2022} 2 apps hidden");
}

#[test]
fn tray_menu_labels() {
    let mut state = AppState::default();
    assert!(state.hidden_menu_labels().is_empty());
    state.mark_hidden("telegram");
    state.mark_hidden("spotify");
    assert_eq!(state.hidden_menu_labels(), vec!["Show telegram".to_string(), "Show spotify".to_string()]);
}

#[test]
fn log_keeps_latest_lines() {
    let mut state = AppState::default();
    for i in 0..(LOG_LIMIT + 7) {
        state.record_output("app", format!("line {i}"));
    }
    state.record_output("other", "hello".to_string());
    let text = state.logs.console_text("app").unwrap();
    let lines: Vec<&str> = text.lines().collect();
    assert_eq!(lines.len(), LOG_LIMIT);
    assert_eq!(lines[0], "line 7");
    assert_eq!(lines[LOG_LIMIT - 1], format!("line {}", LOG_LIMIT + 6));
    assert!(text.ends_with('\n'));
    assert_eq!(state.logs.console_text("other").unwrap(), "hello\n");
    assert!(state.logs.console_text("missing").is_none());
}

#[test]
fn console_text_joins_lines() {
    let mut state = AppState::default();
    state.record_output("app", totray::state::output_line(false, "started"));
    state.record_output("app", totray::state::output_line(true, "warning: x"));
    assert_eq!(state.logs.console_text("app").unwrap(), "started\n[ERR] warning: x\n");
}

#[test]
fn import_clears_hidden_windows() {
    let mut state = AppState::default();
    state.mark_hidden("telegram");
    let mut imported = AppState::default();
    imported.launch_delay = 250;
    imported.auto_start = true;
    imported.add_rule(rule("firefox", "firefox", Action::Close));
    imported.mark_hidden("spotify");
    state.adopt_imported(imported);
    assert_eq!(state.launch_delay, 250);
    assert!(state.auto_start);
    assert_eq!(state.apps.len(), 1);
    assert!(state.hidden_apps.is_empty());
}

#[test]
fn uninstall_and_version_marks() {
    let mut state = AppState::default();
    state.auto_start = true;
    state.desktop_installed = true;
    state.mark_uninstalled();
    assert!(!state.auto_start);
    assert!(!state.desktop_installed);
    state.mark_version_seen();
    assert_eq!(state.last_run_version.as_deref(), Some(totray::CURRENT_VERSION));
}

#[test]
fn cloned_state_keeps_logs() {
    let mut state = AppState::default();
    state.record_output("app", "one".to_string());
    let copy = state.clone();
    assert_eq!(copy.logs.console_text("app").unwrap(), "one\n");
}
