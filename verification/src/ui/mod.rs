pub mod markdown;
pub mod page;
pub mod scroll;
pub mod update;
