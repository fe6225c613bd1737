//! Building argument lists from a byte stream and bounding how many
//! processes run them at once.

pub mod children;
pub mod cmdline;
pub mod parser;
