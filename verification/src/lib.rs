//! Verified core of a cross-platform task manager: parsing of service
//! listings, command-line tokenizing, byte-size formatting, startup-entry
//! (XDG `.desktop`) handling, process sorting and filtering, and the small
//! decisions of the user interface.

pub mod text;
pub mod process_monitor;
pub mod services;
pub mod ieee;
pub mod launcher;
pub mod startup;
pub mod state;
pub mod ui_shared;
pub mod ui_widgets;
pub mod ui_style;
pub mod ui_text;
pub mod task_manager;
