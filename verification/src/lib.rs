//! Incremental construction of a markup tree.
//!
//! A driver feeds structural events (characters, tag opens and closes,
//! comment delimiters) into a single [`html::Html`] value, one event at a
//! time.  The tree locates the current insertion point by descending its own
//! structure instead of keeping an explicit stack of open elements, and it
//! can be rendered back to markup text.

pub mod html;
pub mod laws;
pub mod model;
pub mod tag;
