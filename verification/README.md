# totray

An autostart and tray manager for Hyprland. Each rule names a window class,
the command that starts the application, and what to do with its window once
it appears: close it, close it twice (splash screens), move it to a
workspace, or hide it in the tray.

`src/` is the library, verified with Verus:

- `rule_run` — the decisions of running one rule, as a state machine that
  asks for outside work step by step; `lemma_run_follows_rule` proves that a
  whole run asks for exactly the steps of `expected_steps`.
- `state` — rules, settings, hidden windows and captured console output.
- `hypr` — the `hyprctl` commands and the reading of their output; finding
  the live session.
- `service` — autostart as a systemd user service, and the clean-up of the
  older `exec-once` entry.
- `install` — the desktop entry and the `PATH` snippets.
- `ui`, `cli`, `tray` — the decisions of the settings window, the command
  line and the tray icon.
- `text` — the character-level operations the rest is specified with.

`app/` is the program around it: processes, files, threads, the GTK window,
the tray service and the JSON configuration file.
