pub mod heading;
pub mod lines;
pub mod parse;
pub mod region;
pub mod wrapped;
