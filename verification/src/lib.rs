//! An ordered registry of editor tabs: insertion-ordered, uniquely keyed tab
//! records, a pointer to the currently active tab, and an append-only log of
//! every tab ever created.

pub mod laws;
pub mod model;
pub mod tabs;

pub use tabs::{EditorState, RecentFileInfo, Tab};
