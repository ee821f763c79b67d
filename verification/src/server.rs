//! The server: turns the calls of clients into jobs for the tools, and tells clients about itself.

use vstd::prelude::*;
use vstd::string::*;

use crate::args::{CatArgs, FindArgs, GrepArgs, MemoriesArgs};
use crate::engines::{self, utf8_lossy};
use crate::error::tool_error;
use crate::paths::{self, copy_bytes};
use crate::scope::Scope;
use crate::text;
use crate::tools::find::{find, FindItem};
use crate::tools::grep::{grep, GrepItem};
use crate::tools::options::{FindOptions, GrepOptions, OutputMode};
use crate::tools::response::{call_result, CallToolResult};

verus! {

/// The server. It owns the optional memory directory, the extra instructions loaded at startup,
/// and the filesystem [`Scope`].
#[derive(Debug)]
pub struct CodeMcpServer {
    memory_dir: Option<Vec<u8>>,
    extra_instructions: Option<String>,
    scope: Scope,
}

/// A call of `grep` that was found in order.
#[derive(Debug)]
pub struct GrepJob {
    /// The resolved directory.
    pub directory: Vec<u8>,
    /// What every file of the walk must lie within.
    pub root: Vec<u8>,
    pub pattern: String,
    pub opts: GrepOptions,
}

/// A call of `find` that was found in order.
#[derive(Debug)]
pub struct FindJob {
    /// The resolved directory.
    pub directory: Vec<u8>,
    /// What every file of the walk must lie within.
    pub root: Vec<u8>,
    pub pattern: String,
    pub opts: FindOptions,
}

/// A call of `cat` that was found in order.
#[derive(Debug)]
pub struct CatJob {
    /// The resolved path.
    pub file_path: Vec<u8>,
    pub offset: usize,
    pub max_lines: usize,
    pub max_bytes: usize,
}

/// A call of `memories` that was found in order.
#[derive(Debug)]
pub struct MemoriesJob {
    pub dir: Vec<u8>,
    pub name: Option<String>,
}

impl GrepJob {
    /// Answers the call for a single walker that reports `items`. What does not resolve to a place
    /// within the root has no part in the answer.
    pub fn answer(&self, items: &Vec<GrepItem>) -> (result: CallToolResult)
        ensures
            match engines::compiled_matcher(self.pattern@, self.opts.case_insensitive) {
                Ok(_) => !result.is_error && (result.structured matches Some(response)
                    && crate::tools::grep::is_grep_response(
                    response@,
                    items@,
                    self.opts,
                    self.root@,
                ) && result.text@ == response.content@ && text::byte_len(result.text@)
                    <= self.opts.max_bytes),
                Err(e) => reports(result, crate::error::AppErrorView::GrepRegex(e)),
            },
    {
        call_result(grep(self.pattern.as_str(), &self.opts, items, self.root.as_slice()))
    }
}

impl FindJob {
    /// Answers the call for a single walker that reports `entries`. What does not resolve to a
    /// place within the root has no part in the answer.
    pub fn answer(&self, entries: &Vec<FindItem>) -> (result: CallToolResult)
        ensures
            match engines::compiled_regex(self.pattern@) {
                Ok(re) => {
                    let hits = crate::tools::find::hits_of(re, entries@, self.opts.match_basename);
                    let run = crate::tools::find::find_run(entries@, hits, self.opts, self.root@);
                    !result.is_error && (result.structured matches Some(response) && response@
                        == crate::tools::find::find_view(run.lines, run.errors, run.count)
                        && result.text@ == response.content@)
                },
                Err(e) => reports(result, crate::error::AppErrorView::Regex(e)),
            },
    {
        call_result(find(self.pattern.as_str(), &self.opts, entries, self.root.as_slice()))
    }
}

/// Whether `result` reports the error `err` to a client.
pub open spec fn reports(result: CallToolResult, err: crate::error::AppErrorView) -> bool {
    result.is_error && result.structured is None && result.text@ == err.text()
}

/// Why the path `input` is turned down, if it is, where `resolved` is what came of resolving it.
pub open spec fn scope_refusal(
    root: Seq<u8>,
    input: Seq<char>,
    resolved: Result<Vec<u8>, String>,
) -> Option<crate::error::AppErrorView> {
    match resolved {
        Ok(path) => if paths::is_within(path@, root) {
            None
        } else {
            Some(
                crate::error::AppErrorView::OutOfScope(
                    engines::lossy_text(path@) + " is outside project root "@
                        + engines::lossy_text(root),
                ),
            )
        },
        Err(e) => Some(
            crate::error::AppErrorView::NotFound(
                engines::lossy_text(vstd::utf8::encode_utf8(input)) + ": "@ + e@,
            ),
        ),
    }
}

/// Whether `word` names an output mode.
pub open spec fn is_mode_name(word: Seq<char>) -> bool {
    exists|m: OutputMode| word == #[trigger] m.name()
}

/// Whether `opts` are what `args` ask for.
pub open spec fn grep_options_match(opts: GrepOptions, args: GrepArgs) -> bool {
    &&& opts.before_context == args.before_context
    &&& opts.after_context == args.after_context
    &&& opts.max_results == args.max_results
    &&& opts.case_insensitive == args.case_insensitive
    &&& opts.include_hidden == args.include_hidden
    &&& opts.follow_symlinks == args.follow_symlinks
    &&& opts.respect_gitignore == args.respect_gitignore
    &&& opts.max_bytes == args.max_bytes
    &&& opts.output_mode.name() == args.output_mode@
    &&& opts.file_extensions@ == match args.file_extensions {
        Some(extensions) => extensions.strings(),
        None => Seq::empty(),
    }
}

/// What clients are told first.
pub const INTRO: &'static str = "code-mcp: filesystem search and read tools.\n\n";

/// What clients are told about the scope, up to the root.
pub const SCOPE_BEFORE_ROOT: &'static str = "All paths are scoped to the project root: ";

/// What clients are told about the scope, behind the root.
pub const SCOPE_AFTER_ROOT: &'static str = ". Paths outside this directory (or symlinks \
resolving outside it) are rejected with `invalid_params`.\n\n";

/// What clients are told about the tools.
pub const TOOLS_GUIDE: &'static str = "\
Regex flavor: Rust `regex` crate. No lookaround or backreferences. \
Use the inline flag (?i) at the start of a pattern for case-insensitive matching, \
or pass case_insensitive: true to grep.\n\n\
`grep` supports three output modes via the `output_mode` parameter:\n\
- `files_with_matches` (default): returns only the paths of files containing at \
least one match. This is the most token-efficient mode for broad reconnaissance \
(\"which files mention X?\"). Use `cat` to read specific files afterwards.\n\
- `content`: returns matching lines with line numbers (the traditional grep output).\n\
- `count`: returns per-file match tallies as `path: N` lines.\n\n\
`find` matches the basename of each path by default. Set match_basename: false to \
match against the full path instead.\n\n\
`.gitignore` files are respected by default for both grep and find. \
Set respect_gitignore: false to walk the entire tree, including ignored paths.\n\n\
`cat` supports an `offset` (0-based line number) for paginating long files, plus \
optional `max_lines` and `max_bytes` caps.";

/// What clients are told about memories, where there are any.
pub const MEMORY_GUIDE: &'static str = "\n\nThis server has a memory directory configured. \
Call the `memories` tool at the start of a session to load persisted context \
(conventions, project facts, prior feedback). \
With no arguments it returns an index; pass `name` to load a specific memory file. \
Individual memory files referenced in the index can also be read with `cat`.";

/// What sets off the extra instructions.
pub const EXTRA_HEADING: &'static str = "\n\n--- project instructions ---\n\n";

/// The answer to a call of `memories` where there is no memory directory.
pub const NO_MEMORY_DIR: &'static str = "memory dir not configured; start server with --memory-dir <path>";

/// What clients are told on connecting.
pub open spec fn instructions_text(
    root: Seq<u8>,
    has_memory_dir: bool,
    extra: Option<Seq<char>>,
) -> Seq<char> {
    INTRO@ + SCOPE_BEFORE_ROOT@ + engines::lossy_text(root) + SCOPE_AFTER_ROOT@ + TOOLS_GUIDE@ + (
    if has_memory_dir {
        MEMORY_GUIDE@
    } else {
        Seq::empty()
    }) + match extra {
        Some(text) => EXTRA_HEADING@ + text,
        None => Seq::empty(),
    }
}

impl Clone for CodeMcpServer {
    fn clone(&self) -> (server: Self)
        ensures
            server.root() == self.root(),
            server.memories_at() == self.memories_at(),
            server.extra() == self.extra(),
    {
        let memory_dir = match &self.memory_dir {
            Some(dir) => Some(copy_bytes(dir.as_slice())),
            None => None,
        };
        let extra_instructions = match &self.extra_instructions {
            Some(extra) => Some(extra.clone()),
            None => None,
        };
        CodeMcpServer { memory_dir, extra_instructions, scope: self.scope.clone() }
    }
}

impl CodeMcpServer {
    /// The root of the scope.
    pub closed spec fn root(self) -> Seq<u8> {
        self.scope@
    }

    /// The memory directory, if one is configured.
    pub closed spec fn memories_at(self) -> Option<Seq<u8>> {
        match self.memory_dir {
            Some(dir) => Some(dir@),
            None => None,
        }
    }

    /// The extra instructions, if there are any.
    pub closed spec fn extra(self) -> Option<Seq<char>> {
        crate::tools::response::text_of(self.extra_instructions)
    }

    /// A server. `extra_instructions` is what the memory directory holds by way of instructions;
    /// it is appended to what clients are told on connecting.
    pub fn new(
        memory_dir: Option<Vec<u8>>,
        extra_instructions: Option<String>,
        scope: Scope,
    ) -> (server: Self)
        ensures
            server.root() == scope@,
            server.memories_at() == match memory_dir {
                Some(dir) => Some(dir@),
                None => None,
            },
            server.extra() == crate::tools::response::text_of(extra_instructions),
    {
        CodeMcpServer { memory_dir, extra_instructions, scope }
    }

    /// A call of `grep`: the directory must be in scope, and then the output mode must be known.
    /// `resolved` is what came of resolving the directory.
    pub fn grep(&self, args: GrepArgs, resolved: Result<Vec<u8>, String>) -> (job: Result<
        GrepJob,
        CallToolResult,
    >)
        ensures
            match scope_refusal(self.root(), args.directory@, resolved) {
                Some(err) => job matches Err(result) && reports(result, err),
                None => if is_mode_name(args.output_mode@) {
                    job matches Ok(j) && j.directory@ == resolved->Ok_0@ && j.root@
                        == self.root() && j.pattern == args.pattern && grep_options_match(j.opts, args)
                } else {
                    job matches Err(result) && reports(
                        result,
                        crate::tools::options::unknown_mode(args.output_mode@),
                    )
                },
            },
            job matches Ok(j) ==> paths::is_within(j.directory@, self.root()),
    {
        let directory = match self.scope.check(args.directory.as_str().as_bytes(), resolved) {
            Ok(d) => d,
            Err(e) => {
                return Err(tool_error(e));
            },
        };
        let output_mode = match OutputMode::from_str_lossy(args.output_mode.as_str()) {
            Ok(m) => m,
            Err(e) => {
                return Err(tool_error(e));
            },
        };
        let file_extensions = match args.file_extensions {
            Some(extensions) => extensions.into_vec(),
            None => Vec::new(),
        };
        Ok(
            GrepJob {
                directory,
                root: copy_bytes(self.scope.root()),
                pattern: args.pattern,
                opts: GrepOptions {
                    before_context: args.before_context,
                    after_context: args.after_context,
                    max_results: args.max_results,
                    case_insensitive: args.case_insensitive,
                    include_hidden: args.include_hidden,
                    follow_symlinks: args.follow_symlinks,
                    respect_gitignore: args.respect_gitignore,
                    file_extensions,
                    max_bytes: args.max_bytes,
                    output_mode,
                },
            },
        )
    }

    /// A call of `find`: the directory must be in scope. `resolved` is what came of resolving it.
    pub fn find(&self, args: FindArgs, resolved: Result<Vec<u8>, String>) -> (job: Result<
        FindJob,
        CallToolResult,
    >)
        ensures
            match scope_refusal(self.root(), args.directory@, resolved) {
                Some(err) => job matches Err(result) && reports(result, err),
                None => job matches Ok(j) && j.directory@ == resolved->Ok_0@ && j.root@ == self.root()
                    && j.pattern == args.pattern && j.opts == (FindOptions {
                    max_results: args.max_results,
                    include_hidden: args.include_hidden,
                    respect_gitignore: args.respect_gitignore,
                    match_basename: args.match_basename,
                }),
            },
            job matches Ok(j) ==> paths::is_within(j.directory@, self.root()),
    {
        match self.scope.check(args.directory.as_str().as_bytes(), resolved) {
            Ok(directory) => Ok(
                FindJob {
                    directory,
                    root: copy_bytes(self.scope.root()),
                    pattern: args.pattern,
                    opts: FindOptions {
                        max_results: args.max_results,
                        include_hidden: args.include_hidden,
                        respect_gitignore: args.respect_gitignore,
                        match_basename: args.match_basename,
                    },
                },
            ),
            Err(e) => Err(tool_error(e)),
        }
    }

    /// A call of `cat`: the file must be in scope. `resolved` is what came of resolving its path.
    pub fn cat(&self, args: CatArgs, resolved: Result<Vec<u8>, String>) -> (job: Result<
        CatJob,
        CallToolResult,
    >)
        ensures
            match scope_refusal(self.root(), args.file_path@, resolved) {
                Some(err) => job matches Err(result) && reports(result, err),
                None => job matches Ok(j) && j.file_path@ == resolved->Ok_0@ && j.offset
                    == args.offset && j.max_lines == args.max_lines && j.max_bytes
                    == args.max_bytes,
            },
            job matches Ok(j) ==> paths::is_within(j.file_path@, self.root()),
    {
        match self.scope.check(args.file_path.as_str().as_bytes(), resolved) {
            Ok(file_path) => Ok(
                CatJob {
                    file_path,
                    offset: args.offset,
                    max_lines: args.max_lines,
                    max_bytes: args.max_bytes,
                },
            ),
            Err(e) => Err(tool_error(e)),
        }
    }

    /// A call of `memories`: there must be a memory directory.
    pub fn memories(&self, args: MemoriesArgs) -> (job: Result<MemoriesJob, CallToolResult>)
        ensures
            match self.memories_at() {
                Some(dir) => job matches Ok(j) && j.dir@ == dir && j.name == args.name,
                None => job matches Err(result) && result.is_error && result.structured is None
                    && result.text@ == NO_MEMORY_DIR@,
            },
    {
        match &self.memory_dir {
            Some(dir) => Ok(MemoriesJob { dir: copy_bytes(dir.as_slice()), name: args.name }),
            None => Err(
                CallToolResult {
                    text: NO_MEMORY_DIR.to_owned(),
                    structured: None,
                    is_error: true,
                },
            ),
        }
    }

    /// What clients are told on connecting.
    pub fn instructions(&self) -> (text: String)
        ensures
            text@ == instructions_text(self.root(), self.memories_at() is Some, self.extra()),
    {
        let mut text = INTRO.to_owned();
        text.append(SCOPE_BEFORE_ROOT);
        text.append(utf8_lossy(self.scope.root()).as_str());
        text.append(SCOPE_AFTER_ROOT);
        text.append(TOOLS_GUIDE);
        if self.memory_dir.is_some() {
            text.append(MEMORY_GUIDE);
        }
        if let Some(extra) = &self.extra_instructions {
            text.append(EXTRA_HEADING);
            text.append(extra.as_str());
        }
        assert(text@ =~= instructions_text(
            self.root(),
            self.memories_at() is Some,
            self.extra(),
        ));
        text
    }
}

/// What is refused for its path, for its output mode or for its memory name is refused as the
/// client's fault.
pub proof fn refusals_are_client_faults(
    root: Seq<u8>,
    input: Seq<char>,
    resolved: Result<Vec<u8>, String>,
    mode: Seq<char>,
    memory_dir: Seq<u8>,
    dir_exists: bool,
    name: Option<&str>,
)
    ensures
        scope_refusal(root, input, resolved) matches Some(err) ==> err.is_client_fault(),
        crate::tools::options::unknown_mode(mode).is_client_fault(),
        crate::memory::refusal(memory_dir, dir_exists, name) matches Some(err)
            ==> err.is_client_fault(),
{
}

/// A call of `grep` whose walk meets no file within the root is answered with no text and no
/// matches, whatever lies outside and whether or not symlinks are followed.
pub proof fn nothing_outside_is_answered(
    response: crate::tools::response::ResponseView,
    items: Seq<GrepItem>,
    opts: GrepOptions,
    root: Seq<u8>,
)
    requires
        crate::tools::grep::is_grep_response(response, items, opts, root),
        forall|i: int|
            0 <= i < items.len() && (#[trigger] items[i]).entry is Found && items[i].entry->is_file
                ==> !crate::tools::common::is_in_scope(root, items[i].resolved),
    ensures
        response.content == Seq::<char>::empty(),
        response.match_count == Some(0usize),
        !response.truncated,
{
    crate::tools::grep::nothing_inside_means_nothing_found(
        items,
        opts,
        crate::tools::grep::StreamMode::Content,
        root,
    );
    crate::tools::grep::nothing_inside_means_nothing_found(
        items,
        opts,
        crate::tools::grep::StreamMode::FilesWithMatches,
        root,
    );
    text::lemma_byte_len_zero(Seq::<char>::empty());
    let run = crate::tools::grep::count_run(items, opts, root);
    if opts.output_mode == OutputMode::Count {
        let tally = choose|tally: Seq<(Seq<char>, usize)>| #[trigger]
            crate::tools::counts::is_tally(run.files, tally) && response
                == crate::tools::counts::count_response(
                tally,
                crate::tools::counts::as_counter(crate::tools::counts::hits_total(run.files)),
                run.errors,
                opts.max_results,
                opts.max_bytes,
            );
        crate::tools::counts::lemma_as_counter_add(0, 0);
        if tally.len() > 0 {
            assert(tally[0].0 == tally[0].0);
            assert(crate::tools::counts::mentions(tally, tally[0].0));
        }
        let shown = crate::tools::counts::at_most(tally, opts.max_results);
        assert(crate::tools::counts::count_lines(shown).len() == 0);
    }
}

} // verus!
