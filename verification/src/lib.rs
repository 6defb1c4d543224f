//! Verified core of a terminal emulator's pane logic: selection-head motion,
//! selection text and search over a pane's grid, per-line damage, scrollback
//! arithmetic, and the declarative conformance table that checks a VT engine's
//! observed screen state.

pub mod select;
pub mod text;
pub mod attr;
pub mod screen;
pub mod conformance;
pub mod vendored;
pub mod damage;
pub mod grid_text;
pub mod pane;
pub mod prefs;
