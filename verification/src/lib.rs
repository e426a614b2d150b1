//! Core of an archive editor: a synchronous command/response bus to a single
//! background worker, a registry of open entry views, the archive session
//! state with its game-profile selection rule, and a table-edit model with an
//! undo/redo engine.
//!
//! Presentation (widgets, dialogs, rendering) is out of scope: the library
//! only emits notification values that a front end may interpret.

pub mod app_ui;
pub mod archive;
pub mod bus;
pub mod paths;
pub mod profile;
pub mod registry;
pub mod table;
pub mod table_laws;
