//! The template code generator: its configuration, the render contexts it
//! derives from it, and the decisions of a generation run.
pub mod config;
pub mod error;
pub mod laws;
pub mod run;
pub mod search;
pub mod select;
pub mod text;
