use totray::hypr::{
    clients_args, close_window_args, exec_args, hide_to_special_args, is_session_dir,
    monitors_args, monitors_ready, move_workspace_args, order_sessions, shell_args,
    show_from_special_args, wait_for_session_step, window_count, windows_in_listing,
    reply_lists_monitors, SessionCandidate, SessionWait,
};

#[test]
fn dispatch_arguments() {
    assert_eq!(exec_args("firefox --private"), vec!["dispatch", "exec", "firefox --private"]);
    assert_eq!(close_window_args("firefox"), vec!["dispatch", "closewindow", "class:firefox"]);
    assert_eq!(
        move_workspace_args("discord", 7),
        vec!["dispatch", "movetoworkspacesilent", "7,class:discord"]
    );
    assert_eq!(
        move_workspace_args("x", 4294967295),
        vec!["dispatch", "movetoworkspacesilent", "4294967295,class:x"]
    );
    assert_eq!(
        hide_to_special_args("telegram"),
        vec!["dispatch", "movetoworkspacesilent", "special,class:telegram"]
    );
    assert_eq!(
        show_from_special_args("telegram"),
        vec!["dispatch", "movetoworkspace", "+0,class:telegram"]
    );
    assert_eq!(clients_args(), vec!["clients"]);
    assert_eq!(monitors_args("abc_123"), vec!["-i", "abc_123", "monitors", "-j"]);
    assert_eq!(shell_args("sleep 1 && echo hi"), vec!["-c", "sleep 1 && echo hi"]);
}

const CLIENTS: &str = "Window 1 -> Firefox:\n\tclass: firefox\n\tinitialClass: firefox\n\n\
Window 2 -> Chat:\n\tclass: telegram\n\nWindow 3 -> Firefox:\n\tclass: firefox\n";

#[test]
fn counts_windows_of_class() {
    assert_eq!(window_count(CLIENTS.as_bytes(), "firefox"), 2);
    assert_eq!(window_count(CLIENTS.as_bytes(), "telegram"), 1);
    assert_eq!(window_count(CLIENTS.as_bytes(), "spotify"), 0);
    assert_eq!(window_count(b"", "firefox"), 0);
}

#[test]
fn counts_windows_in_invalid_utf8() {
    let mut bytes = b"\tclass: fire\xfffox\n\tclass: firefox\n".to_vec();
    bytes.push(0xfe);
    assert_eq!(window_count(&bytes, "firefox"), 1);
    assert_eq!(window_count(&bytes, "fire\u{fffd}fox"), 1);
}

#[test]
fn monitor_list_readiness() {
    assert!(monitors_ready(b"  [ {\"id\": 0} ]\n"));
    assert!(!monitors_ready(b"[]"));
    assert!(!monitors_ready(b"  []\n"));
    assert!(!monitors_ready(b""));
    assert!(!monitors_ready(b"HYPRLAND_INSTANCE_SIGNATURE invalid"));
}

#[test]
fn session_directories() {
    assert!(is_session_dir(&vec![".socket.sock".to_string()]));
    assert!(is_session_dir(&vec!["hyprland.log".to_string(), ".socket2.sock".to_string()]));
    assert!(!is_session_dir(&vec!["hyprland.log".to_string()]));
    assert!(!is_session_dir(&vec![]));
}

#[test]
fn session_wait_decisions() {
    let sig = Some("abc".to_string());
    assert_eq!(wait_for_session_step(&sig, &sig, true), SessionWait::Ready { export: false });
    assert_eq!(
        wait_for_session_step(&sig, &Some("old".to_string()), false),
        SessionWait::Ready { export: true }
    );
    assert_eq!(wait_for_session_step(&sig, &None, false), SessionWait::Ready { export: true });
    assert_eq!(wait_for_session_step(&None, &sig, true), SessionWait::GiveUp);
    assert_eq!(wait_for_session_step(&None, &None, false), SessionWait::Retry);
}

fn cand(modified: i128, signature: &str) -> SessionCandidate {
    SessionCandidate { modified, signature: signature.to_string() }
}

#[test]
fn sessions_newest_first_stable() {
    let found = vec![cand(5, "a"), cand(9, "b"), cand(-3, "c"), cand(9, "d"), cand(5, "e")];
    let ordered: Vec<String> = order_sessions(found).into_iter().map(|c| c.signature).collect();
    assert_eq!(ordered, vec!["b", "d", "a", "e", "c"]);
    assert!(order_sessions(vec![]).is_empty());
}

#[test]
fn decoded_listing_and_reply() {
    assert_eq!(windows_in_listing("\tclass: firefox\n\tclass: firefox-esr\n", "firefox"), 2);
    assert_eq!(windows_in_listing("\tclass: kitty\n", "firefox"), 0);
    assert_eq!(windows_in_listing("", "x"), 0);
    assert!(reply_lists_monitors("[{\"id\": 0}]"));
    assert!(!reply_lists_monitors(" [] "));
    assert!(!reply_lists_monitors("ok"));
}
