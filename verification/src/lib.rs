//! A pane-layout engine for a terminal emulator window.
//!
//! A window is divided into panes arranged as a binary right/down tree kept
//! in an index-addressed arena. The library computes each pane's character
//! grid from its pixel box and font-cell metrics, performs splits, removals
//! (with index compaction), whole-window resizes, flattens the tree into an
//! ordered list of render regions, and hit-tests pointer coordinates against
//! that list. All pixel quantities are whole pixels kept within a bounded
//! coordinate range; every operation is total over its stated preconditions.

pub mod ansi;
pub mod geometry;
pub mod grid;
pub mod objects;
pub mod sugar;
