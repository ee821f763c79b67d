//! What a client sends along with a call of a tool, and what holds where it leaves something out.

use vstd::prelude::*;
use vstd::string::*;

use crate::tools::{DEFAULT_MAX_BYTES, DEFAULT_MAX_LINES, DEFAULT_MAX_RESULTS};

verus! {

/// The default of counts that start at nothing.
pub fn default_zero() -> (n: usize)
    ensures
        n == 0,
{
    0
}

/// The default cap on results.
pub fn default_max_results() -> (n: usize)
    ensures
        n == 100,
{
    DEFAULT_MAX_RESULTS
}

/// The default cap on bytes.
pub fn default_max_bytes() -> (n: usize)
    ensures
        n == 5 * 1024 * 1024,
{
    DEFAULT_MAX_BYTES
}

/// The default cap on lines.
pub fn default_max_lines() -> (n: usize)
    ensures
        n == 2000,
{
    DEFAULT_MAX_LINES
}

/// The default of what is off unless asked for.
pub fn default_false() -> (b: bool)
    ensures
        !b,
{
    false
}

/// The default of what is on unless asked for otherwise.
pub fn default_true() -> (b: bool)
    ensures
        b,
{
    true
}

/// The default restriction on extensions: none.
pub fn default_file_extensions() -> (extensions: Option<StringOrVec>)
    ensures
        extensions is None,
{
    None
}

/// The default output mode.
pub fn default_output_mode() -> (mode: String)
    ensures
        mode@ == crate::tools::options::OutputMode::FilesWithMatches.name(),
{
    "files_with_matches".to_owned()
}

/// Either a single string or an array of strings: a client may restrict a search to `"sql"` or to
/// `["rs", "toml"]`.
#[derive(Debug)]
pub enum StringOrVec {
    /// A single extension string.
    One(String),
    /// An array of extension strings.
    Many(Vec<String>),
}

impl StringOrVec {
    /// The strings, whichever way they were given.
    pub open spec fn strings(self) -> Seq<String> {
        match self {
            StringOrVec::One(s) => seq![s],
            StringOrVec::Many(v) => v@,
        }
    }

    /// The strings, whichever way they were given.
    pub fn into_vec(self) -> (strings: Vec<String>)
        ensures
            strings@ == self.strings(),
    {
        match self {
            StringOrVec::One(s) => {
                let mut strings: Vec<String> = Vec::new();
                strings.push(s);
                assert(strings@ =~= seq![s]);
                strings
            },
            StringOrVec::Many(v) => v,
        }
    }
}

/// The arguments of `grep`.
#[derive(Debug)]
pub struct GrepArgs {
    /// Directory to search in.
    pub directory: String,
    /// Regex pattern to search for.
    pub pattern: String,
    /// Number of lines of context before each match.
    pub before_context: usize,
    /// Number of lines of context after each match.
    pub after_context: usize,
    /// Maximum number of results to return.
    pub max_results: usize,
    /// Case-insensitive search.
    pub case_insensitive: bool,
    /// Include hidden files and directories.
    pub include_hidden: bool,
    /// Follow symbolic links.
    pub follow_symlinks: bool,
    /// Respect `.gitignore` files.
    pub respect_gitignore: bool,
    /// Restrict to files with these extensions. Empty means all files.
    pub file_extensions: Option<StringOrVec>,
    /// Hard cap on total response size in bytes.
    pub max_bytes: usize,
    /// The name of the output mode.
    pub output_mode: String,
}

/// The arguments of `find`.
#[derive(Debug)]
pub struct FindArgs {
    /// Directory to search in.
    pub directory: String,
    /// Regex pattern to match against filenames.
    pub pattern: String,
    /// Maximum number of results to return.
    pub max_results: usize,
    /// Include hidden files and directories.
    pub include_hidden: bool,
    /// Respect `.gitignore` files.
    pub respect_gitignore: bool,
    /// Match the basename only, or else the full path.
    pub match_basename: bool,
}

/// The arguments of `cat`.
#[derive(Debug)]
pub struct CatArgs {
    /// Path to the file to read.
    pub file_path: String,
    /// Line offset to start from, counted from 0.
    pub offset: usize,
    /// Maximum number of lines to return.
    pub max_lines: usize,
    /// Maximum number of bytes to return.
    pub max_bytes: usize,
}

/// The arguments of `memories`.
#[derive(Debug)]
pub struct MemoriesArgs {
    /// Memory file name. If there is none, the index is asked for.
    pub name: Option<String>,
}

} // verus!
