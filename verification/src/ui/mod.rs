//! The terminal UI: its state, what events do to it, and what its widgets
//! show.

pub mod app;
pub mod events;
pub mod layout;
pub mod logview;
pub mod sidebar;
pub mod widgets;
