//! A per-directory todo list: tasks with stable indices, selectors that pick them, the commands
//! that change them, the project file they are kept in, and the command line that asks for it.
pub mod cli;
pub mod codec;
pub mod commands;
pub mod complete;
pub mod digits;
pub mod laws;
pub mod model;
pub mod ops;
pub mod select;
pub mod text;
