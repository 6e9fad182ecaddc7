pub mod code_block;
pub mod entry_point;
pub mod events;
pub mod links;
pub mod list;
pub mod meta_tag;
pub mod segment;
pub mod word;
pub mod write;
