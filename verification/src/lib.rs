//! Rules, state and decisions of a Hyprland autostart-and-tray manager.

use vstd::prelude::*;

pub mod cli;
pub mod hypr;
pub mod install;
pub mod rule_run;
pub mod service;
pub mod state;
pub mod text;
pub mod tray;
pub mod ui;

verus! {

/// The version of this release, as shown in the settings window.
pub const CURRENT_VERSION: &'static str = "0.1.0";

} // verus!
