//! The command line's own logic: parameters, listings and checks, kept
//! apart from the printing and prompting that the program does.

pub mod answers;
pub mod params;
pub mod render;
pub mod tree;
