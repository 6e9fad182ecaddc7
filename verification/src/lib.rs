//! Outline and documentation browsing model for a crate's public API:
//! the module tree, item statistics, the folded outline lines,
//! the scrollable panels and the styled markdown lines they show.
pub mod style;
pub mod tree;
pub mod ui;
pub mod type_names;
pub mod decl;
pub mod util;
