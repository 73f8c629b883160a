//! State and decisions of the terminal browser: application state, key
//! actions, the partition and dirent views, filesystem detection, snapshot
//! diffs and the text of the hex and tree widgets. Drawing and the event
//! loop live with the caller.

pub mod app;
pub mod browse;
pub mod diff;
pub mod input;
pub mod theme;
pub mod ui;
pub mod widgets;
mod time;

pub use app::handle_action;
pub use input::Action;
