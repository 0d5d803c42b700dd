//! Native shell controller for a desktop Pomodoro timer.
//!
//! The shell owns the operating-system surfaces of the application and a
//! durable record of completed sessions:
//!
//! - [`visibility`]: the single source of truth for whether the main window is
//!   shown, reachable through one toggle operation;
//! - [`tray`]: the tray icon's lifecycle, its mutable title, and the
//!   interpretation of tray clicks (act on release, ignore press);
//! - [`shortcuts`]: a fixed set of global key combinations bound one-to-one to
//!   named application events;
//! - [`events`]: the best-effort channel on which those events reach the
//!   presentation layer;
//! - [`store`]: the schema-versioned, append-only session store and its
//!   migrations;
//! - [`surface`]: the one command the presentation layer may invoke.
//!
//! The presentation layer (timer logic, UI) is an external collaborator: it
//! listens for the shell's events and calls back through [`surface`]. All
//! operating-system work (creating the icon, showing or hiding the window,
//! registering hotkeys with the OS) happens outside this crate; the types here
//! decide what is to be done and keep the shell's state consistent.

pub mod events;
pub mod shortcuts;
pub mod store;
pub mod surface;
pub mod tray;
pub mod visibility;
