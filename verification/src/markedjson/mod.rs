//! A JSON reader that keeps the position of every token and value, so that
//! lint messages can point at the offending place.

pub mod json;
pub mod error;
pub mod marks;
pub mod events;
pub mod tokens;
pub mod reader;
pub mod scanner;
pub mod markedvalue;
pub mod constructor;
pub mod loader;
pub mod resolver;
pub mod nodes;
pub mod composer;
pub mod parser;
