//! Search and read tools over a directory tree, with every rule proved.

pub mod args;
pub mod engines;
pub mod error;
pub mod gate;
pub mod laws;
pub mod limiter;
pub mod memory;
pub mod ordering;
pub mod paths;
pub mod reaper;
pub mod scope;
pub mod server;
pub mod text;
pub mod tools;
