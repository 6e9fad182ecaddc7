pub mod doctree;
pub mod id;
pub mod tag;
pub mod glyph;
pub mod textline;
pub mod nodes;
pub mod stats;
pub mod idmap;
pub mod fold_set;
pub mod outline;
pub mod sort;
pub mod construct;
pub mod prettier;
pub mod plain;
