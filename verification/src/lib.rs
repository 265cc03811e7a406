//! Core logic of a system-tray update checker for Arch Linux machines.
//!
//! The library covers the parts of the application that decide and compute:
//! parsing the output of the update-listing tools, merging and enriching the
//! local update list, classifying and ordering fleet probe results, the
//! check-cycle orchestration decisions, and the presentation state machine
//! that turns aggregated results into an icon state, a tooltip, and
//! notification decisions.  Process invocation, the GUI shell, and rendering
//! live outside the library and exchange plain values with it.

pub mod checker;
pub mod config;
pub mod system;
pub mod tailscale;
pub mod terminal;
pub mod text;
pub mod tray;
