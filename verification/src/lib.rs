//! A verified engine for directory size analysis.
//!
//! The engine computes, for every immediate child of a chosen root directory,
//! the total byte size of that child's subtree, tracks scan progress as a
//! percentage, keeps the results in a store that is sorted by size once the
//! scan completes, and supports removing an entry when the user sends it to
//! the trash. All filesystem access, threading and presentation live outside
//! this crate; the engine works on plain values handed in by its caller.

pub mod engine;
pub mod format;
pub mod paths;
pub mod progress;
pub mod sizes;
pub mod store;
pub mod text;
