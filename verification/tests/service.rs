use totray::service::{
    disable_service_commands, enable_service, is_enabled_args, service_unit_text, should_migrate,
    strip_legacy_autostart, ServiceCommand, ServiceStep, SERVICE_NAME,
};

fn systemctl(step: ServiceStep) -> Vec<String> {
    match step {
        ServiceStep::Run(ServiceCommand::Systemctl(args)) => args,
        _ => panic!("expected a systemctl command"),
    }
}

#[test]
fn enabling_runs_three_commands() {
    assert!(matches!(enable_service(true, &vec![]), ServiceStep::Run(ServiceCommand::WriteUnit)));
    assert_eq!(systemctl(enable_service(true, &vec![true])), vec!["--user", "daemon-reload"]);
    assert_eq!(
        systemctl(enable_service(true, &vec![true, true])),
        vec!["--user", "enable", "--now", "totray.service"]
    );
    assert_eq!(
        systemctl(enable_service(false, &vec![true, true])),
        vec!["--user", "enable", "totray.service"]
    );
    assert!(matches!(enable_service(true, &vec![true, true, true]), ServiceStep::Finished(true)));
}

#[test]
fn enabling_stops_at_first_failure() {
    assert!(matches!(enable_service(true, &vec![false]), ServiceStep::Finished(false)));
    assert!(matches!(enable_service(false, &vec![true, false]), ServiceStep::Finished(false)));
    assert!(matches!(enable_service(true, &vec![true, true, false]), ServiceStep::Finished(false)));
}

#[test]
fn disabling_commands() {
    let cmds = disable_service_commands();
    assert_eq!(cmds.len(), 3);
    match &cmds[0] {
        ServiceCommand::Systemctl(a) => assert_eq!(a, &vec!["--user", "disable", "--now", SERVICE_NAME]),
        _ => panic!(),
    }
    assert!(matches!(cmds[1], ServiceCommand::RemoveUnit));
    match &cmds[2] {
        ServiceCommand::Systemctl(a) => assert_eq!(a, &vec!["--user", "daemon-reload"]),
        _ => panic!(),
    }
    assert_eq!(is_enabled_args(), vec!["--user", "--quiet", "is-enabled", "totray.service"]);
}

#[test]
fn unit_file_text() {
    let text = service_unit_text("/home/u/.local/bin/totray");
    assert_eq!(
        text,
        "[Unit]\nDescription=ToTray - Autorun and Tray Manager for Hyprland\n\
         After=graphical-session.target\nPartOf=graphical-session.target\n\n[Service]\n\
         Type=simple\nExecStart=\"/home/u/.local/bin/totray\" --worker\nRestart=on-failure\n\
         RestartSec=3\n\n[Install]\nWantedBy=default.target\n"
    );
}

#[test]
fn migration_decision() {
    assert!(should_migrate(true, true, false));
    assert!(!should_migrate(false, true, false));
    assert!(!should_migrate(true, false, false));
    assert!(!should_migrate(true, true, true));
}

#[test]
fn legacy_autostart_removed() {
    let conf = "monitor=,preferred,auto,1\n# ToTray: autostart\nexec-once = totray --worker\n\n  \n";
    assert_eq!(strip_legacy_autostart(conf).unwrap(), "monitor=,preferred,auto,1\n");
}

#[test]
fn clean_config_left_alone() {
    assert!(strip_legacy_autostart("monitor=,preferred,auto,1\nbind = SUPER, Q, exec, kitty\n").is_none());
    let cleaned = strip_legacy_autostart("a\r\nexec-once=totray\r\nb").unwrap();
    assert_eq!(cleaned, "a\nb\n");
    assert!(strip_legacy_autostart(&cleaned).is_none());
}

#[test]
fn config_without_autostart_is_not_rewritten() {
    assert!(strip_legacy_autostart("").is_none());
    assert!(strip_legacy_autostart("\n").is_none());
    assert!(strip_legacy_autostart("a").is_none());
    assert!(strip_legacy_autostart("a\n\n\n").is_none());
    assert!(strip_legacy_autostart("a\r\nb").is_none());
}

#[test]
fn autostart_line_without_final_newline() {
    assert_eq!(strip_legacy_autostart("exec-once = totray").unwrap(), "\n");
    assert_eq!(strip_legacy_autostart("a\n# ToTray: x").unwrap(), "a\n");
}
