//! Paste the clipboard over a file, keeping a one-generation backup that can
//! be restored, and decide when a changing clipboard has settled.

pub mod apply;
pub mod infer;
pub mod languages;
pub mod mode;
pub mod naming;
pub mod revert;
pub mod text;
pub mod watcher;
