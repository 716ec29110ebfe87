//! The state and the editing, search and replacement rules of an interactive
//! search-and-replace panel for a text editor.
//!
//! The panel keeps two single-line inputs (a search pattern and a replacement
//! template), a list of matches, and the focus, scope and option flags that
//! decide how keys act on them.  Everything that reads files, draws on a
//! terminal or runs on a background thread lives outside this crate; what it
//! computes from plain values lives here.

pub mod format;
pub mod grouping;
pub mod keys;
pub mod layout;
pub mod laws;
pub mod model;
pub mod panel;
pub mod pattern;
pub mod queue;
pub mod movement;
pub mod rope;
pub mod text;
pub mod workspace;

