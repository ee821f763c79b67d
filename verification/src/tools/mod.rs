//! The search and read tools.
//!
//! - [`grep`], [`find`], [`cat`]: the tools themselves.
//! - [`response`]: [`response::ToolResponse`], what every tool returns.
//! - [`options`]: what `grep` and `find` can be asked for.
//! - [`common`]: walk entries, the extension filter, the record of errors, capped output.
//! - [`sinks`], [`counts`]: what `grep` does with the lines that match, mode by mode.

pub mod cat;
pub mod common;
pub mod counts;
pub mod find;
pub mod grep;
pub mod options;
pub mod response;
pub mod sinks;

use vstd::prelude::*;

pub use cat::cat;
pub use find::find;
pub use grep::grep;
pub use options::{FindOptions, GrepOptions, OutputMode};
pub use response::ToolResponse;

verus! {

/// The byte cap of a response, unless the client asks for another one: 5 MiB.
pub const DEFAULT_MAX_BYTES: usize = 5242880;

/// The cap on results, unless the client asks for another one.
pub const DEFAULT_MAX_RESULTS: usize = 100;

/// The cap on lines, unless the client asks for another one.
pub const DEFAULT_MAX_LINES: usize = 2000;

} // verus!
