use totray::install::{
    compare_chunks, current_exe_path, desktop_entry_text, fish_path_text, needs_path_entry,
    path_entries, path_entry_to_append, shell_configs, sizes_may_match, strip_path_config,
    uninstall_configs,
    ChunkVerdict, ENVIRONMENT_PATH_TEXT, SHELL_PATH_TEXT,
};

#[test]
fn desktop_entry() {
    assert_eq!(
        desktop_entry_text("/home/u/.local/bin/totray"),
        "[Desktop Entry]\nName=ToTray\nComment=Autorun and Tray Manager for Hyprland\n\
         Exec=/home/u/.local/bin/totray\nIcon=totray\nTerminal=false\nType=Application\n\
         Categories=Utility;System;\nStartupNotify=false\nActions=Settings;\n\n\
         [Desktop Action Settings]\nName=Settings\nExec=/home/u/.local/bin/totray\n"
    );
}

#[test]
fn path_snippets() {
    assert!(needs_path_entry("alias ll='ls -l'\n"));
    assert!(!needs_path_entry("export PATH=$HOME/.local/bin:$PATH\n"));
    assert_eq!(
        fish_path_text("/home/u/.local/bin"),
        "\n# Added by ToTray\nfish_add_path /home/u/.local/bin\n\n"
    );
    assert!(SHELL_PATH_TEXT.contains("export PATH=\"$HOME/.local/bin:$PATH\""));
    assert_eq!(ENVIRONMENT_PATH_TEXT, "PATH=\"$HOME/.local/bin:$PATH\"\n");
    assert_eq!(shell_configs(), vec![".bashrc", ".zshrc", ".profile", ".bash_profile"]);
    assert_eq!(uninstall_configs().len(), 5);
    assert_eq!(uninstall_configs()[4], ".config/fish/config.fish");
}

#[test]
fn uninstall_restores_shell_config() {
    let original = "alias ll='ls -l'\n";
    let bashrc = format!("{original}{SHELL_PATH_TEXT}");
    assert_eq!(strip_path_config(&bashrc, SHELL_PATH_TEXT), original);
    let no_newline = format!("alias ll='ls -l'{SHELL_PATH_TEXT}");
    assert_eq!(strip_path_config(&no_newline, SHELL_PATH_TEXT), "alias ll='ls -l'\n");
    let twice = format!("a\n{SHELL_PATH_TEXT}b\n{SHELL_PATH_TEXT}");
    assert_eq!(strip_path_config(&twice, SHELL_PATH_TEXT), "a\nb\n");
    let fish_block = fish_path_text("/home/u/.local/bin");
    let fish = format!("set x 1\n{fish_block}");
    assert_eq!(strip_path_config(&fish, &fish_block), "set x 1\n");
    assert_eq!(strip_path_config("", SHELL_PATH_TEXT), "\n");
    assert_eq!(strip_path_config("set x 1", SHELL_PATH_TEXT), "set x 1\n");
    assert_eq!(strip_path_config("a\r\nb\n\n", SHELL_PATH_TEXT), "a\nb\n\n");
}

#[test]
fn uninstall_falls_back_to_line_filter() {
    assert_eq!(strip_path_config("set x 1\nfish_add_path /a\n", SHELL_PATH_TEXT), "set x 1\n");
    assert_eq!(
        strip_path_config("a\n# Added by ToTray\nexport PATH=x\r\nalias t=totray\n", SHELL_PATH_TEXT),
        "a\nexport PATH=x\n"
    );
}

#[test]
fn path_fix_appends_once() {
    let bashrc = "alias ll='ls -l'\n";
    let added = path_entry_to_append(bashrc, SHELL_PATH_TEXT).unwrap();
    assert_eq!(added, SHELL_PATH_TEXT);
    let after = format!("{bashrc}{added}");
    assert!(path_entry_to_append(&after, SHELL_PATH_TEXT).is_none());
    assert!(path_entry_to_append("PATH=~/.local/bin:$PATH\n", SHELL_PATH_TEXT).is_none());
    let fish_block = fish_path_text("/home/u/.local/bin");
    let fish = format!("set x 1\n{}", path_entry_to_append("set x 1\n", &fish_block).unwrap());
    assert!(path_entry_to_append(&fish, &fish_block).is_none());
}

#[test]
fn deleted_binary_path() {
    assert_eq!(current_exe_path("/usr/bin/totray (deleted)"), "/usr/bin/totray");
    assert_eq!(current_exe_path("/usr/bin/totray"), "/usr/bin/totray");
    assert_eq!(current_exe_path(" (deleted)"), "");
}

#[test]
fn path_split() {
    assert_eq!(path_entries("/usr/bin:/home/u/.local/bin"), vec!["/usr/bin", "/home/u/.local/bin"]);
    assert_eq!(path_entries(""), vec![""]);
    assert_eq!(path_entries("a::b:"), vec!["a", "", "b", ""]);
}

#[test]
fn chunk_comparison() {
    assert_eq!(compare_chunks(b"abc", b"abc"), ChunkVerdict::Continue);
    assert_eq!(compare_chunks(b"abc", b"abd"), ChunkVerdict::Differ);
    assert_eq!(compare_chunks(b"ab", b"abc"), ChunkVerdict::Differ);
    assert_eq!(compare_chunks(b"", b""), ChunkVerdict::Equal);
    assert!(sizes_may_match(Some(3), Some(3)));
    assert!(!sizes_may_match(Some(3), Some(4)));
    assert!(sizes_may_match(None, Some(4)));
}
