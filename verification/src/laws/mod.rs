//! What the library promises, each promise stated on its own terms.
//!
//! The contracts say what each function returns. The proof functions here say what that amounts
//! to: how a result reads back, what it must hold and leave out, and how the answers to two
//! requests relate. They speak of sequences, bytes and numbers as far as they can, and define what
//! else they need themselves.

pub mod cat;
pub mod counts;
pub mod find;
pub mod gate;
pub mod grep;
pub mod lines;
pub mod memory;
pub mod paths;
pub mod server;
pub mod sessions;
pub mod text;
pub mod walk;
