//! What the `grep` and `find` tools can be asked for.

use vstd::prelude::*;
use vstd::string::*;

use crate::error::AppError;
use crate::tools::{DEFAULT_MAX_BYTES, DEFAULT_MAX_RESULTS};

verus! {

/// Controls what the `grep` tool emits for each match.
#[derive(Debug, Clone, Copy, PartialEq, Eq, Structural)]
pub enum OutputMode {
    /// Emit the file path on the first match, then skip the rest of that file.
    FilesWithMatches,
    /// Emit matching lines with line numbers.
    Content,
    /// Emit per-file match tallies as `path: N` lines.
    Count,
}

impl OutputMode {
    /// The word by which a client names this mode.
    pub open spec fn name(self) -> Seq<char> {
        match self {
            OutputMode::FilesWithMatches => "files_with_matches"@,
            OutputMode::Content => "content"@,
            OutputMode::Count => "count"@,
        }
    }

    /// The mode that `s` names; other words are an error.
    pub fn from_str_lossy(s: &str) -> (mode: Result<Self, AppError>)
        ensures
            mode is Ok <==> exists|m: OutputMode| s@ == #[trigger] m.name(),
            mode matches Ok(m) ==> s@ == m.name(),
            mode matches Err(e) ==> e@ == unknown_mode(s@),
            forall|m: OutputMode| s@ == #[trigger] m.name() ==> mode == Ok::<Self, AppError>(m),
    {
        proof {
            assert forall|a: OutputMode, b: OutputMode|
                (#[trigger] a.name()) == (#[trigger] b.name()) implies a == b by {
                mode_names_differ(a, b);
            }
        }
        let given = s.to_owned();
        if given == "files_with_matches".to_owned() {
            assert(s@ == OutputMode::FilesWithMatches.name());
            return Ok(OutputMode::FilesWithMatches);
        }
        if given == "content".to_owned() {
            assert(s@ == OutputMode::Content.name());
            return Ok(OutputMode::Content);
        }
        if given == "count".to_owned() {
            assert(s@ == OutputMode::Count.name());
            return Ok(OutputMode::Count);
        }
        let mut text = "unknown output_mode '".to_owned();
        text.append(s);
        text.append("'; expected one of: files_with_matches, content, count");
        Err(AppError::InvalidRequest(text))
    }
}

/// The error for a word that names no output mode.
pub open spec fn unknown_mode(s: Seq<char>) -> crate::error::AppErrorView {
    crate::error::AppErrorView::InvalidRequest(
        "unknown output_mode '"@ + s
            + "'; expected one of: files_with_matches, content, count"@,
    )
}

/// Different modes have different names, so a name stands for one mode.
pub proof fn mode_names_differ(a: OutputMode, b: OutputMode)
    requires
        a.name() == b.name(),
    ensures
        a == b,
{
    reveal_strlit("files_with_matches");
    reveal_strlit("content");
    reveal_strlit("count");
    assert("files_with_matches"@.len() == 18);
    assert("content"@.len() == 7);
    assert("count"@.len() == 5);
}

/// What a directory walk needs to know of a tool's options.
pub trait WalkerConfig {
    spec fn wants_hidden(&self) -> bool;

    spec fn wants_gitignore(&self) -> bool;

    spec fn wants_symlinks(&self) -> bool;

    /// Whether hidden files and directories are walked.
    fn include_hidden(&self) -> (b: bool)
        ensures
            b == self.wants_hidden(),
    ;

    /// Whether ignore rules of git are obeyed.
    fn respect_gitignore(&self) -> (b: bool)
        ensures
            b == self.wants_gitignore(),
    ;

    /// Whether symbolic links are followed.
    fn follow_symlinks(&self) -> (b: bool)
        ensures
            b == self.wants_symlinks(),
    ;
}

/// Configuration for the `grep` tool.
#[derive(Debug)]
pub struct GrepOptions {
    /// Lines of context to emit before each match (`content` mode only).
    pub before_context: usize,
    /// Lines of context to emit after each match (`content` mode only).
    pub after_context: usize,
    /// Exact cap on results. For `files_with_matches`/`count` this caps the
    /// number of files; for `content` it caps the number of matching lines.
    pub max_results: usize,
    /// Case-insensitive matching (equivalent to a `(?i)` prefix on the pattern).
    pub case_insensitive: bool,
    /// Walk hidden files and directories too.
    pub include_hidden: bool,
    /// Follow symbolic links during the walk.
    pub follow_symlinks: bool,
    /// Respect `.gitignore` / global / exclude gitignore rules.
    pub respect_gitignore: bool,
    /// Restrict search to files with these extensions (empty = all files).
    pub file_extensions: Vec<String>,
    /// Hard cap on total response size in bytes.
    pub max_bytes: usize,
    /// What to emit for each match (see [`OutputMode`]).
    pub output_mode: OutputMode,
}

impl Default for GrepOptions {
    fn default() -> (opts: Self)
        ensures
            opts.before_context == 0,
            opts.after_context == 0,
            opts.max_results == 100,
            !opts.case_insensitive,
            !opts.include_hidden,
            !opts.follow_symlinks,
            opts.respect_gitignore,
            opts.file_extensions@.len() == 0,
            opts.max_bytes == 5 * 1024 * 1024,
            opts.output_mode == OutputMode::FilesWithMatches,
    {
        GrepOptions {
            before_context: 0,
            after_context: 0,
            max_results: DEFAULT_MAX_RESULTS,
            case_insensitive: false,
            include_hidden: false,
            follow_symlinks: false,
            respect_gitignore: true,
            file_extensions: Vec::new(),
            max_bytes: DEFAULT_MAX_BYTES,
            output_mode: OutputMode::FilesWithMatches,
        }
    }
}

impl WalkerConfig for GrepOptions {
    open spec fn wants_hidden(&self) -> bool {
        self.include_hidden
    }

    open spec fn wants_gitignore(&self) -> bool {
        self.respect_gitignore
    }

    open spec fn wants_symlinks(&self) -> bool {
        self.follow_symlinks
    }

    fn include_hidden(&self) -> (b: bool) {
        self.include_hidden
    }

    fn respect_gitignore(&self) -> (b: bool) {
        self.respect_gitignore
    }

    fn follow_symlinks(&self) -> (b: bool) {
        self.follow_symlinks
    }
}

/// Configuration for the `find` tool.
#[derive(Debug, Clone, Copy)]
pub struct FindOptions {
    /// Exact cap on the number of matching paths returned.
    pub max_results: usize,
    /// Walk hidden files and directories too.
    pub include_hidden: bool,
    /// Respect `.gitignore` / global / exclude gitignore rules.
    pub respect_gitignore: bool,
    /// When `true` (default), match the regex against the file's basename;
    /// when `false`, match against the full path.
    pub match_basename: bool,
}

impl Default for FindOptions {
    fn default() -> (opts: Self)
        ensures
            opts.max_results == 100,
            !opts.include_hidden,
            opts.respect_gitignore,
            opts.match_basename,
    {
        FindOptions {
            max_results: DEFAULT_MAX_RESULTS,
            include_hidden: false,
            respect_gitignore: true,
            match_basename: true,
        }
    }
}

impl WalkerConfig for FindOptions {
    open spec fn wants_hidden(&self) -> bool {
        self.include_hidden
    }

    open spec fn wants_gitignore(&self) -> bool {
        self.respect_gitignore
    }

    /// `find` never follows symbolic links.
    open spec fn wants_symlinks(&self) -> bool {
        false
    }

    fn include_hidden(&self) -> (b: bool) {
        self.include_hidden
    }

    fn respect_gitignore(&self) -> (b: bool) {
        self.respect_gitignore
    }

    fn follow_symlinks(&self) -> (b: bool) {
        false
    }
}

} // verus!
