//! The `grep` tool: regex search across the files of a directory tree.
//!
//! Walking the tree and reading files is the caller's part: many walkers may do so side by side,
//! sharing a counter of results and an [`ErrorState`]. What they decide at each entry and each
//! line, and what comes out in the end, stands here and in the neighbouring modules. [`grep`]
//! itself is the whole tool for a single walker, over what that walker reports.

use grep_regex::RegexMatcher;
use grep_searcher::Searcher;
use vstd::prelude::*;
use vstd::string::*;

use crate::engines::{self, compile_matcher, new_searcher};
use crate::error::AppError;
use crate::text;
use crate::tools::common::{
    drain_capped, judge_entry, wants_more, EntryStep, ErrorState, WalkEntry,
};
use crate::tools::counts::{self, finish_count, FileCount};
use crate::tools::options::{GrepOptions, OutputMode};
use crate::tools::response::ToolResponse;
use crate::tools::sinks::{self, CountSink, FileMatchSink, MatchSink};

verus! {

/// The two modes that put out text while they go.
#[derive(Debug, Clone, Copy, PartialEq, Eq, Structural)]
pub enum StreamMode {
    Content,
    FilesWithMatches,
}

/// A line that the search of a file reports.
#[derive(Debug)]
pub enum SearchEvent {
    Match { line_number: Option<u64>, bytes: Vec<u8> },
    Context { line_number: Option<u64>, bytes: Vec<u8> },
}

/// The search of a file: the lines it reports if it is never told to stop, and how it fails
/// after that, if it does.
#[derive(Debug)]
pub struct FileSearch {
    pub events: Vec<SearchEvent>,
    pub failure: Option<String>,
}

/// An entry of a walk, what came of resolving its path, and the search of it in case it is a file.
#[derive(Debug)]
pub struct GrepItem {
    pub entry: WalkEntry,
    pub resolved: Result<Vec<u8>, String>,
    pub search: FileSearch,
}

/// The state of the search of one file in `content` mode: the shared counter, the lines shown so
/// far, and whether the search was told to stop.
pub struct FileRun {
    pub count: usize,
    pub buf: Seq<char>,
    pub stopped: bool,
}

/// One more line of a file in `content` mode.
pub open spec fn content_step(
    path: Seq<char>,
    run: FileRun,
    event: SearchEvent,
    max_results: usize,
    max_bytes: usize,
) -> FileRun {
    let fits = text::byte_len(run.buf) <= max_bytes;
    match event {
        SearchEvent::Match { line_number, bytes } => {
            let shown = run.count < max_results && fits;
            FileRun {
                count: run.count.wrapping_add(1),
                buf: if shown {
                    run.buf + sinks::match_line(path, line_number, bytes@)
                } else {
                    run.buf
                },
                stopped: !shown,
            }
        },
        SearchEvent::Context { line_number, bytes } => FileRun {
            count: run.count,
            buf: if fits {
                run.buf + sinks::context_line(path, line_number, bytes@)
            } else {
                run.buf
            },
            stopped: !fits,
        },
    }
}

/// The lines `events` of a file in `content` mode, with the shared counter at `start`: each line
/// is shown until one is refused, and that ends the search.
pub open spec fn content_run(
    path: Seq<char>,
    events: Seq<SearchEvent>,
    start: usize,
    max_results: usize,
    max_bytes: usize,
) -> FileRun
    decreases events.len(),
{
    if events.len() == 0 {
        FileRun { count: start, buf: Seq::empty(), stopped: false }
    } else {
        let run = content_run(path, events.drop_last(), start, max_results, max_bytes);
        if run.stopped {
            run
        } else {
            content_step(path, run, events.last(), max_results, max_bytes)
        }
    }
}

/// Whether a line matched.
pub open spec fn has_match(events: Seq<SearchEvent>) -> bool {
    exists|i: int| 0 <= i < events.len() && (#[trigger] events[i]) is Match
}

/// How many lines matched.
pub open spec fn match_total(events: Seq<SearchEvent>) -> nat
    decreases events.len(),
{
    if events.len() == 0 {
        0
    } else {
        match_total(events.drop_last()) + if events.last() is Match {
            1
        } else {
            0nat
        }
    }
}

/// What the search of one file leaves behind: the shared counter, the text for the output, and
/// whether the search was told to stop.
pub struct Searched {
    pub count: usize,
    pub chunk: Option<Seq<char>>,
    pub stopped: bool,
}

/// The search of the file at `path`, with the shared counter at `start`.
pub open spec fn searched(
    path: Seq<u8>,
    events: Seq<SearchEvent>,
    start: usize,
    opts: GrepOptions,
    mode: StreamMode,
) -> Searched {
    let name = engines::lossy_text(path);
    match mode {
        StreamMode::Content => {
            let run = content_run(name, events, start, opts.max_results, opts.max_bytes);
            Searched {
                count: run.count,
                chunk: if run.buf.len() > 0 {
                    Some(run.buf)
                } else {
                    None
                },
                stopped: run.stopped,
            }
        },
        StreamMode::FilesWithMatches => Searched {
            count: if has_match(events) {
                start.wrapping_add(1)
            } else {
                start
            },
            chunk: if has_match(events) && start < opts.max_results {
                Some(name.push('\n'))
            } else {
                None
            },
            stopped: has_match(events),
        },
    }
}

/// The state of a walk in one of the streamed modes.
pub struct StreamView {
    /// The counter of results.
    pub count: usize,
    /// The text put out so far, file by file.
    pub chunks: Seq<Seq<char>>,
    pub errors: crate::tools::common::ErrorView,
    /// Whether the walk has ended.
    pub done: bool,
}

/// The errors on record once a file was searched: a failure counts if the search got that far.
pub open spec fn after_search(
    errors: crate::tools::common::ErrorView,
    path: Seq<u8>,
    failure: Option<String>,
    stopped: bool,
) -> crate::tools::common::ErrorView {
    match failure {
        Some(msg) if !stopped => errors.search_error(path, msg@),
        _ => errors,
    }
}

/// One more entry of a walk in one of the streamed modes.
pub open spec fn stream_step(
    state: StreamView,
    item: GrepItem,
    opts: GrepOptions,
    mode: StreamMode,
    root: Seq<u8>,
) -> StreamView {
    match crate::tools::common::entry_step(
        state.count,
        opts.max_results,
        item.entry,
        opts.file_extensions@,
        root,
        item.resolved,
    ) {
        EntryStep::Quit => StreamView { done: true, ..state },
        EntryStep::Skip => state,
        EntryStep::Failed => StreamView {
            errors: state.errors.entry_error(
                crate::tools::common::entry_failure(item.entry, item.resolved),
            ),
            ..state
        },
        EntryStep::Search => {
            let path = item.entry->path@;
            let file = searched(path, item.search.events@, state.count, opts, mode);
            StreamView {
                count: file.count,
                chunks: match file.chunk {
                    Some(text) => state.chunks.push(text),
                    None => state.chunks,
                },
                errors: after_search(state.errors, path, item.search.failure, file.stopped),
                done: file.count >= opts.max_results,
            }
        },
    }
}

/// A walk in one of the streamed modes over `items`.
pub open spec fn stream_run(
    items: Seq<GrepItem>,
    opts: GrepOptions,
    mode: StreamMode,
    root: Seq<u8>,
) -> StreamView
    decreases items.len(),
{
    if items.len() == 0 {
        StreamView {
            count: 0,
            chunks: Seq::empty(),
            errors: crate::tools::common::ErrorView::empty(),
            done: false,
        }
    } else {
        let state = stream_run(items.drop_last(), opts, mode, root);
        if state.done {
            state
        } else {
            stream_step(state, items.last(), opts, mode, root)
        }
    }
}

/// The response of the streamed modes: all text, under a hard cap on its bytes.
pub open spec fn streamed_view(
    chunks: Seq<Seq<char>>,
    errors: crate::tools::common::ErrorView,
    count: usize,
    max_bytes: usize,
) -> crate::tools::response::ResponseView {
    let text = text::concat(chunks);
    let cut = text::byte_len(text) > max_bytes;
    crate::tools::response::ResponseView {
        content: text::hard_capped(text, max_bytes as int),
        truncated: cut,
        truncation_reason: if cut {
            Some("byte_cap"@)
        } else {
            None
        },
        match_count: Some(count),
        entry_error_count: Some(errors.entry_errors),
        search_error_count: Some(errors.search_errors),
        first_error: errors.first(),
    }
}

/// Compiles `pattern` as `opts` ask for it.
pub fn build_matcher(pattern: &str, opts: &GrepOptions) -> (matcher: Result<RegexMatcher, AppError>)
    ensures
        match engines::compiled_matcher(pattern@, opts.case_insensitive) {
            Ok(m) => matcher == Ok::<RegexMatcher, AppError>(m),
            Err(e) => matcher matches Err(err) && err@ == crate::error::AppErrorView::GrepRegex(e),
        },
{
    match compile_matcher(pattern, opts.case_insensitive) {
        Ok(m) => Ok(m),
        Err(e) => Err(AppError::GrepRegex(e)),
    }
}

/// The searcher for `mode`: files with a NUL byte are given up there, and lines are numbered and
/// shown with their context in `content` mode only.
pub fn build_searcher(opts: &GrepOptions, mode: StreamMode) -> (searcher: Searcher)
    ensures
        searcher == match mode {
            StreamMode::Content => engines::configured_searcher(
                0,
                true,
                opts.before_context,
                opts.after_context,
            ),
            StreamMode::FilesWithMatches => engines::configured_searcher(0, false, 0, 0),
        },
{
    match mode {
        StreamMode::Content => new_searcher(0, true, opts.before_context, opts.after_context),
        StreamMode::FilesWithMatches => new_searcher(0, false, 0, 0),
    }
}

/// The response of the streamed modes, once the walk has ended: `chunks` is what the searches put
/// out, and `count` what the shared counter holds.
pub fn streamed_response(
    chunks: &Vec<String>,
    errors: ErrorState,
    count: usize,
    max_bytes: usize,
) -> (response: ToolResponse)
    ensures
        response@ == streamed_view(text::texts_of(chunks@), errors@, count, max_bytes),
        text::byte_len(response.content@) <= max_bytes,
{
    proof {
        text::lemma_hard_capped(text::concat(text::texts_of(chunks@)), max_bytes as int);
    }
    let (whole, byte_cap_hit) = drain_capped(chunks, max_bytes);
    let content = if !byte_cap_hit {
        whole
    } else if max_bytes == 0 {
        String::new()
    } else {
        let (cut, _) = drain_capped(chunks, max_bytes - 1);
        cut
    };
    let (entry_errors, search_errors, first_error) = errors.into_metadata();
    ToolResponse {
        content,
        truncated: byte_cap_hit,
        truncation_reason: if byte_cap_hit {
            Some("byte_cap".to_owned())
        } else {
            None
        },
        match_count: Some(count),
        entry_error_count: Some(entry_errors),
        search_error_count: Some(search_errors),
        first_error,
    }
}

/// Searches one file in `content` mode.
fn search_content(
    path: &[u8],
    events: &Vec<SearchEvent>,
    start: usize,
    opts: &GrepOptions,
) -> (out: (usize, Option<String>, bool))
    ensures
        ({
            let file = searched(path@, events@, start, *opts, StreamMode::Content);
            &&& out.0 == file.count
            &&& crate::tools::response::text_of(out.1) == file.chunk
            &&& out.2 == file.stopped
        }),
{
    let mut sink = MatchSink::new(path, opts.max_results, opts.max_bytes);
    let mut count: usize = start;
    let mut more = true;
    let mut i: usize = 0;
    let ghost name = engines::lossy_text(path@);
    assert(events@.take(0) =~= Seq::<SearchEvent>::empty());
    while i < events.len() && more
        invariant
            i <= events@.len(),
            sink.path@ == name,
            sink.max_results == opts.max_results,
            sink.max_bytes == opts.max_bytes,
            ({
                let run = content_run(
                    name,
                    events@.take(i as int),
                    start,
                    opts.max_results,
                    opts.max_bytes,
                );
                &&& run.count == count
                &&& run.buf == sink.buf@
                &&& run.stopped == !more
            }),
        decreases events@.len() - i,
    {
        assert(events@.take(i + 1).drop_last() =~= events@.take(i as int));
        assert(events@.take(i + 1).last() == events@[i as int]);
        match &events[i] {
            SearchEvent::Match { line_number, bytes } => {
                let prev: usize = count;
                count = count.wrapping_add(1);
                more = sink.matched(prev, *line_number, bytes.as_slice());
            },
            SearchEvent::Context { line_number, bytes } => {
                more = sink.context(*line_number, bytes.as_slice());
            },
        }
        i = i + 1;
    }
    proof {
        lemma_stopped_stays(name, events@, i as int, start, opts.max_results, opts.max_bytes);
    }
    (count, sink.into_chunk(), !more)
}

/// A search that was told to stop takes no more lines.
proof fn lemma_stopped_stays(
    path: Seq<char>,
    events: Seq<SearchEvent>,
    i: int,
    start: usize,
    max_results: usize,
    max_bytes: usize,
)
    requires
        0 <= i <= events.len(),
        i == events.len() || content_run(path, events.take(i), start, max_results, max_bytes).stopped,
    ensures
        content_run(path, events, start, max_results, max_bytes) == content_run(
            path,
            events.take(i),
            start,
            max_results,
            max_bytes,
        ),
    decreases events.len() - i,
{
    if i == events.len() {
        assert(events.take(i) =~= events);
    } else {
        assert(events.take(i + 1).drop_last() =~= events.take(i));
        lemma_stopped_stays(path, events, i + 1, start, max_results, max_bytes);
    }
}

/// Searches one file in `files_with_matches` mode.
fn search_listing(
    path: &[u8],
    events: &Vec<SearchEvent>,
    start: usize,
    opts: &GrepOptions,
) -> (out: (usize, Option<String>, bool))
    ensures
        ({
            let file = searched(path@, events@, start, *opts, StreamMode::FilesWithMatches);
            &&& out.0 == file.count
            &&& crate::tools::response::text_of(out.1) == file.chunk
            &&& out.2 == file.stopped
        }),
{
    let mut sink = FileMatchSink::new(opts.max_results);
    let mut i: usize = 0;
    while i < events.len()
        invariant
            i <= events@.len(),
            !sink.settled,
            !sink.matched_this_file,
            sink.max_results == opts.max_results,
            forall|k: int| 0 <= k < i ==> !((#[trigger] events@[k]) is Match),
        decreases events@.len() - i,
    {
        match &events[i] {
            SearchEvent::Match { .. } => {
                sink.matched(start);
                assert(events@[i as int] is Match);
                return (start.wrapping_add(1), sink.into_chunk(path), true);
            },
            SearchEvent::Context { .. } => {
                sink.context();
            },
        }
        i = i + 1;
    }
    (start, sink.into_chunk(path), false)
}

/// Counts the matches of one file.
fn search_count(events: &Vec<SearchEvent>) -> (count: usize)
    ensures
        count == counts::as_counter(match_total(events@)),
{
    let mut sink = CountSink::new();
    let mut i: usize = 0;
    proof {
        assert(events@.take(0) =~= Seq::<SearchEvent>::empty());
        counts::lemma_as_counter_add(0, 0);
    }
    while i < events.len()
        invariant
            i <= events@.len(),
            sink.count == counts::as_counter(match_total(events@.take(i as int))),
        decreases events@.len() - i,
    {
        proof {
            assert(events@.take(i + 1).drop_last() =~= events@.take(i as int));
            assert(events@.take(i + 1).last() == events@[i as int]);
            counts::lemma_as_counter_add(match_total(events@.take(i as int)), 1);
        }
        match &events[i] {
            SearchEvent::Match { .. } => {
                sink.matched();
            },
            SearchEvent::Context { .. } => {
                sink.context();
            },
        }
        i = i + 1;
    }
    assert(events@.take(events@.len() as int) =~= events@);
    sink.count
}

/// A single walker's run in one of the streamed modes.
struct StreamRun {
    count: usize,
    chunks: Vec<String>,
    errors: ErrorState,
    done: bool,
}

impl StreamRun {
    spec fn state(self) -> StreamView {
        StreamView {
            count: self.count,
            chunks: text::texts_of(self.chunks@),
            errors: self.errors@,
            done: self.done,
        }
    }

    /// Takes one more entry.
    fn step(&mut self, item: &GrepItem, opts: &GrepOptions, mode: StreamMode, root: &[u8])
        requires
            !old(self).done,
        ensures
            final(self).state() == stream_step(old(self).state(), *item, *opts, mode, root@),
    {
        match judge_entry(
            self.count,
            opts.max_results,
            &item.entry,
            &opts.file_extensions,
            root,
            &item.resolved,
        ) {
            EntryStep::Quit => {
                self.done = true;
            },
            EntryStep::Skip => {},
            EntryStep::Failed => {
                self.errors.record_failure(&item.entry, &item.resolved);
            },
            EntryStep::Search => {
                if let WalkEntry::Found { path, is_file: _ } = &item.entry {
                    let (count, chunk, stopped) = match mode {
                        StreamMode::Content => search_content(
                            path.as_slice(),
                            &item.search.events,
                            self.count,
                            opts,
                        ),
                        StreamMode::FilesWithMatches => search_listing(
                            path.as_slice(),
                            &item.search.events,
                            self.count,
                            opts,
                        ),
                    };
                    if !stopped {
                        if let Some(msg) = &item.search.failure {
                            self.errors.record_search_error(path.as_slice(), msg.as_str());
                        }
                    }
                    if let Some(text) = chunk {
                        let ghost chunks0 = self.chunks@;
                        self.chunks.push(text);
                        assert(text::texts_of(self.chunks@) =~= text::texts_of(chunks0).push(text@));
                    }
                    self.count = count;
                    self.done = !wants_more(count, opts.max_results);
                }
            },
        }
    }
}

/// A walk that has ended takes no more entries.
proof fn lemma_done_stays(items: Seq<GrepItem>, i: int, opts: GrepOptions, mode: StreamMode, root: Seq<u8>)
    requires
        0 <= i <= items.len(),
        i == items.len() || stream_run(items.take(i), opts, mode, root).done,
    ensures
        stream_run(items, opts, mode, root) == stream_run(items.take(i), opts, mode, root),
    decreases items.len() - i,
{
    if i == items.len() {
        assert(items.take(i) =~= items);
    } else {
        assert(items.take(i + 1).drop_last() =~= items.take(i));
        lemma_done_stays(items, i + 1, opts, mode, root);
    }
}

/// `content` and `files_with_matches` mode for a single walker that reports `items`.
pub fn grep_streamed(
    pattern: &str,
    opts: &GrepOptions,
    mode: StreamMode,
    items: &Vec<GrepItem>,
    root: &[u8],
) -> (outcome: Result<ToolResponse, AppError>)
    ensures
        match engines::compiled_matcher(pattern@, opts.case_insensitive) {
            Ok(_) => {
                let run = stream_run(items@, *opts, mode, root@);
                outcome matches Ok(response) && response@ == streamed_view(
                    run.chunks,
                    run.errors,
                    run.count,
                    opts.max_bytes,
                )
            },
            Err(e) => outcome matches Err(err) && err@ == crate::error::AppErrorView::GrepRegex(e),
        },
        outcome matches Ok(response) ==> text::byte_len(response.content@) <= opts.max_bytes,
{
    match build_matcher(pattern, opts) {
        Err(e) => {
            return Err(e);
        },
        Ok(_) => {},
    }
    let mut run = StreamRun { count: 0, chunks: Vec::new(), errors: ErrorState::new(), done: false };
    let mut i: usize = 0;
    proof {
        assert(items@.take(0) =~= Seq::<GrepItem>::empty());
        assert(text::texts_of(run.chunks@) =~= Seq::<Seq<char>>::empty());
    }
    while i < items.len() && !run.done
        invariant
            i <= items@.len(),
            run.state() == stream_run(items@.take(i as int), *opts, mode, root@),
        decreases items@.len() - i,
    {
        assert(items@.take(i + 1).drop_last() =~= items@.take(i as int));
        assert(items@.take(i + 1).last() == items@[i as int]);
        run.step(&items[i], opts, mode, root);
        i = i + 1;
    }
    proof {
        lemma_done_stays(items@, i as int, *opts, mode, root@);
    }
    Ok(streamed_response(&run.chunks, run.errors, run.count, opts.max_bytes))
}

/// The state of a walk in `count` mode.
pub struct CountView {
    /// The files with matches.
    pub files: Seq<(Seq<char>, usize)>,
    /// The counter of such files.
    pub file_count: usize,
    pub errors: crate::tools::common::ErrorView,
    /// Whether the walk has ended.
    pub done: bool,
}

/// One more entry of a walk in `count` mode.
pub open spec fn count_step(state: CountView, item: GrepItem, opts: GrepOptions, root: Seq<u8>) -> CountView {
    match crate::tools::common::entry_step(
        state.file_count,
        opts.max_results,
        item.entry,
        opts.file_extensions@,
        root,
        item.resolved,
    ) {
        EntryStep::Quit => CountView { done: true, ..state },
        EntryStep::Skip => state,
        EntryStep::Failed => CountView {
            errors: state.errors.entry_error(
                crate::tools::common::entry_failure(item.entry, item.resolved),
            ),
            ..state
        },
        EntryStep::Search => {
            let path = item.entry->path@;
            let hits = counts::as_counter(match_total(item.search.events@));
            let file_count = if hits > 0 {
                state.file_count.wrapping_add(1)
            } else {
                state.file_count
            };
            CountView {
                files: if hits > 0 {
                    state.files.push((engines::lossy_text(path), hits))
                } else {
                    state.files
                },
                file_count,
                errors: after_search(state.errors, path, item.search.failure, false),
                done: file_count >= opts.max_results,
            }
        },
    }
}

/// A walk in `count` mode over `items`.
pub open spec fn count_run(items: Seq<GrepItem>, opts: GrepOptions, root: Seq<u8>) -> CountView
    decreases items.len(),
{
    if items.len() == 0 {
        CountView {
            files: Seq::empty(),
            file_count: 0,
            errors: crate::tools::common::ErrorView::empty(),
            done: false,
        }
    } else {
        let state = count_run(items.drop_last(), opts, root);
        if state.done {
            state
        } else {
            count_step(state, items.last(), opts, root)
        }
    }
}

/// A single walker's run in `count` mode.
struct CountRun {
    files: Vec<FileCount>,
    file_count: usize,
    errors: ErrorState,
    done: bool,
}

/// What the file at `path` adds to the tally, if it has matches.
pub fn file_count_of(path: &[u8], hits: usize) -> (entry: Option<FileCount>)
    ensures
        hits == 0 ==> entry is None,
        hits > 0 ==> (entry matches Some(f) && f.path@ == engines::lossy_text(path@) && f.count
            == hits),
{
    if hits > 0 {
        Some(FileCount { path: engines::utf8_lossy(path), count: hits })
    } else {
        None
    }
}

impl CountRun {
    spec fn state(self) -> CountView {
        CountView {
            files: counts::counts_of(self.files@),
            file_count: self.file_count,
            errors: self.errors@,
            done: self.done,
        }
    }

    /// Takes one more entry.
    fn step(&mut self, item: &GrepItem, opts: &GrepOptions, root: &[u8])
        requires
            !old(self).done,
        ensures
            final(self).state() == count_step(old(self).state(), *item, *opts, root@),
    {
        match judge_entry(
            self.file_count,
            opts.max_results,
            &item.entry,
            &opts.file_extensions,
            root,
            &item.resolved,
        ) {
            EntryStep::Quit => {
                self.done = true;
            },
            EntryStep::Skip => {},
            EntryStep::Failed => {
                self.errors.record_failure(&item.entry, &item.resolved);
            },
            EntryStep::Search => {
                if let WalkEntry::Found { path, is_file: _ } = &item.entry {
                    let hits: usize = search_count(&item.search.events);
                    if let Some(msg) = &item.search.failure {
                        self.errors.record_search_error(path.as_slice(), msg.as_str());
                    }
                    if let Some(file) = file_count_of(path.as_slice(), hits) {
                        let ghost files0 = self.files@;
                        self.file_count = self.file_count.wrapping_add(1);
                        self.files.push(file);
                        assert(counts::counts_of(self.files@) =~= counts::counts_of(files0).push(
                            (file.path@, file.count),
                        ));
                    }
                    self.done = !wants_more(self.file_count, opts.max_results);
                }
            },
        }
    }
}

/// A walk that has ended takes no more entries.
proof fn lemma_count_done_stays(items: Seq<GrepItem>, i: int, opts: GrepOptions, root: Seq<u8>)
    requires
        0 <= i <= items.len(),
        i == items.len() || count_run(items.take(i), opts, root).done,
    ensures
        count_run(items, opts, root) == count_run(items.take(i), opts, root),
    decreases items.len() - i,
{
    if i == items.len() {
        assert(items.take(i) =~= items);
    } else {
        assert(items.take(i + 1).drop_last() =~= items.take(i));
        lemma_count_done_stays(items, i + 1, opts, root);
    }
}

/// `count` mode for a single walker that reports `items`.
pub fn grep_count(
    pattern: &str,
    opts: &GrepOptions,
    items: &Vec<GrepItem>,
    root: &[u8],
) -> (outcome: Result<ToolResponse, AppError>)
    ensures
        match engines::compiled_matcher(pattern@, opts.case_insensitive) {
            Ok(_) => outcome matches Ok(response) && is_count_response(response@, items@, *opts, root@),
            Err(e) => outcome matches Err(err) && err@ == crate::error::AppErrorView::GrepRegex(e),
        },
        outcome matches Ok(response) ==> text::byte_len(response.content@) <= opts.max_bytes,
{
    match build_matcher(pattern, opts) {
        Err(e) => {
            return Err(e);
        },
        Ok(_) => {},
    }
    let mut run = CountRun {
        files: Vec::new(),
        file_count: 0,
        errors: ErrorState::new(),
        done: false,
    };
    let mut i: usize = 0;
    proof {
        assert(items@.take(0) =~= Seq::<GrepItem>::empty());
        assert(counts::counts_of(run.files@) =~= Seq::<(Seq<char>, usize)>::empty());
    }
    while i < items.len() && !run.done
        invariant
            i <= items@.len(),
            run.state() == count_run(items@.take(i as int), *opts, root@),
        decreases items@.len() - i,
    {
        assert(items@.take(i + 1).drop_last() =~= items@.take(i as int));
        assert(items@.take(i + 1).last() == items@[i as int]);
        run.step(&items[i], opts, root);
        i = i + 1;
    }
    proof {
        lemma_count_done_stays(items@, i as int, *opts, root@);
    }
    Ok(finish_count(run.files, run.errors, opts.max_results, opts.max_bytes))
}

/// Whether `response` is that of `count` mode for a walk over `items`.
pub open spec fn is_count_response(
    response: crate::tools::response::ResponseView,
    items: Seq<GrepItem>,
    opts: GrepOptions,
    root: Seq<u8>,
) -> bool {
    let run = count_run(items, opts, root);
    exists|tally: Seq<(Seq<char>, usize)>| #[trigger]
        counts::is_tally(run.files, tally) && response == counts::count_response(
            tally,
            counts::as_counter(counts::hits_total(run.files)),
            run.errors,
            opts.max_results,
            opts.max_bytes,
        )
}

/// Regex search across files, for a single walker that reports `items`: dispatches on the output
/// mode. Entry errors and search errors are tallied in the response and end nothing.
pub fn grep(
    pattern: &str,
    opts: &GrepOptions,
    items: &Vec<GrepItem>,
    root: &[u8],
) -> (outcome: Result<ToolResponse, AppError>)
    ensures
        match engines::compiled_matcher(pattern@, opts.case_insensitive) {
            Ok(_) => outcome matches Ok(response) && is_grep_response(response@, items@, *opts, root@),
            Err(e) => outcome matches Err(err) && err@ == crate::error::AppErrorView::GrepRegex(e),
        },
        outcome matches Ok(response) ==> text::byte_len(response.content@) <= opts.max_bytes,
{
    match opts.output_mode {
        OutputMode::Content => grep_streamed(pattern, opts, StreamMode::Content, items, root),
        OutputMode::FilesWithMatches => grep_streamed(
            pattern,
            opts,
            StreamMode::FilesWithMatches,
            items,
            root,
        ),
        OutputMode::Count => grep_count(pattern, opts, items, root),
    }
}

/// Whether `response` is that of `grep` for a walk over `items`.
pub open spec fn is_grep_response(
    response: crate::tools::response::ResponseView,
    items: Seq<GrepItem>,
    opts: GrepOptions,
    root: Seq<u8>,
) -> bool {
    match opts.output_mode {
        OutputMode::Content => {
            let run = stream_run(items, opts, StreamMode::Content, root);
            response == streamed_view(run.chunks, run.errors, run.count, opts.max_bytes)
        },
        OutputMode::FilesWithMatches => {
            let run = stream_run(items, opts, StreamMode::FilesWithMatches, root);
            response == streamed_view(run.chunks, run.errors, run.count, opts.max_bytes)
        },
        OutputMode::Count => is_count_response(response, items, opts, root),
    }
}

/// However many searches share a counter, `content` mode shows no more than `max_results`
/// matches: `prevs` are what the counter held before each match that was shown, and no two
/// matches find the same value in it.
pub proof fn shown_matches_are_capped(sinks: Seq<MatchSink>, prevs: Seq<usize>, max_results: usize)
    requires
        sinks.len() == prevs.len(),
        prevs.no_duplicates(),
        forall|i: int|
            0 <= i < prevs.len() ==> (#[trigger] sinks[i]).max_results == max_results
                && sinks[i].takes(prevs[i]),
    ensures
        prevs.len() <= max_results,
{
    assert forall|i: int| 0 <= i < prevs.len() implies (#[trigger] prevs[i]) < max_results by {
        assert(sinks[i].takes(prevs[i]));
    }
    crate::tools::common::shared_counter_caps(prevs, max_results);
}

/// A line of a file as `content` mode shows it.
pub open spec fn event_line(path: Seq<char>, event: SearchEvent) -> Seq<char> {
    match event {
        SearchEvent::Match { line_number, bytes } => sinks::match_line(path, line_number, bytes@),
        SearchEvent::Context { line_number, bytes } => sinks::context_line(
            path,
            line_number,
            bytes@,
        ),
    }
}

/// The lines of a file as `content` mode shows them.
pub open spec fn event_lines(path: Seq<char>, events: Seq<SearchEvent>) -> Seq<Seq<char>> {
    events.map_values(|event: SearchEvent| event_line(path, event))
}

/// The search of a file shows the lines in their order, without a gap: all of them, and each
/// match counted, unless it was told to stop, and else those before the line at which it was.
pub proof fn lines_are_shown_in_order(
    path: Seq<char>,
    events: Seq<SearchEvent>,
    start: usize,
    max_results: usize,
    max_bytes: usize,
)
    ensures
        ({
            let run = content_run(path, events, start, max_results, max_bytes);
            let lines = event_lines(path, events);
            if run.stopped {
                exists|n: int|
                    0 <= n < events.len() && run.buf == text::concat(#[trigger] lines.take(n))
            } else {
                run.buf == text::concat(lines) && run.count == counts::as_counter(
                    start as nat + match_total(events),
                )
            }
        }),
    decreases events.len(),
{
    let lines = event_lines(path, events);
    if events.len() == 0 {
        counts::lemma_as_counter_add(0, start);
    } else {
        let before = events.drop_last();
        let lines_before = event_lines(path, before);
        let run = content_run(path, before, start, max_results, max_bytes);
        lines_are_shown_in_order(path, before, start, max_results, max_bytes);
        assert(lines.drop_last() =~= lines_before);
        assert(lines.last() == event_line(path, events.last()));
        if run.stopped {
            let n = choose|n: int|
                0 <= n < before.len() && run.buf == text::concat(#[trigger] lines_before.take(n));
            assert(lines.take(n) =~= lines_before.take(n));
        } else {
            let after = content_run(path, events, start, max_results, max_bytes);
            counts::lemma_as_counter_add(start as nat + match_total(before), 1);
            if after.stopped {
                assert(lines.take(before.len() as int) =~= lines_before);
            }
        }
    }
}

/// A single walker in `files_with_matches` mode lists no more than `max_results` files, and
/// reports as many as it lists.
pub proof fn listing_is_capped(items: Seq<GrepItem>, opts: GrepOptions, root: Seq<u8>)
    ensures
        stream_run(items, opts, StreamMode::FilesWithMatches, root).count <= opts.max_results,
        stream_run(items, opts, StreamMode::FilesWithMatches, root).chunks.len() == stream_run(
            items,
            opts,
            StreamMode::FilesWithMatches,
            root,
        ).count,
    decreases items.len(),
{
    if items.len() > 0 {
        listing_is_capped(items.drop_last(), opts, root);
    }
}

/// The search of one file raises the counter by no more than it takes to pass `max_results` by
/// one.
proof fn lemma_content_count(
    path: Seq<char>,
    events: Seq<SearchEvent>,
    start: usize,
    max_results: usize,
    max_bytes: usize,
)
    requires
        start <= max_results < usize::MAX,
    ensures
        start <= content_run(path, events, start, max_results, max_bytes).count <= max_results + 1,
        !content_run(path, events, start, max_results, max_bytes).stopped ==> content_run(
            path,
            events,
            start,
            max_results,
            max_bytes,
        ).count <= max_results,
    decreases events.len(),
{
    if events.len() > 0 {
        lemma_content_count(path, events.drop_last(), start, max_results, max_bytes);
    }
}

/// A single walker in `content` mode counts at most one match beyond `max_results`: the one that
/// tells it to end. The counter must be able to hold that number.
pub proof fn content_count_is_capped(items: Seq<GrepItem>, opts: GrepOptions, root: Seq<u8>)
    requires
        opts.max_results < usize::MAX,
    ensures
        stream_run(items, opts, StreamMode::Content, root).count <= opts.max_results + 1,
    decreases items.len(),
{
    if items.len() > 0 {
        content_count_is_capped(items.drop_last(), opts, root);
        let state = stream_run(items.drop_last(), opts, StreamMode::Content, root);
        let item = items.last();
        if !state.done && state.count < opts.max_results {
            if let WalkEntry::Found { path, .. } = item.entry {
                lemma_content_count(
                    engines::lossy_text(path@),
                    item.search.events@,
                    state.count,
                    opts.max_results,
                    opts.max_bytes,
                );
            }
        }
    }
}

/// A single walker in `count` mode counts no more than `max_results` files, each of which has a
/// match.
pub proof fn counting_is_capped(items: Seq<GrepItem>, opts: GrepOptions, root: Seq<u8>)
    ensures
        count_run(items, opts, root).file_count <= opts.max_results,
        count_run(items, opts, root).files.len() == count_run(items, opts, root).file_count,
        forall|i: int|
            0 <= i < count_run(items, opts, root).files.len() ==> (#[trigger] count_run(
                items,
                opts,
                root,
            ).files[i]).1 > 0,
    decreases items.len(),
{
    if items.len() > 0 {
        counting_is_capped(items.drop_last(), opts, root);
    }
}

/// The text of a streamed response is all that the searches put out, or, marked as truncated, a
/// part of it that ends a line. It never passes the cap.
pub proof fn streamed_text_is_capped(
    chunks: Seq<Seq<char>>,
    errors: crate::tools::common::ErrorView,
    count: usize,
    max_bytes: usize,
)
    ensures
        ({
            let response = streamed_view(chunks, errors, count, max_bytes);
            let all = text::concat(chunks);
            let kept = text::fitting_prefix(all, max_bytes - 1);
            &&& text::byte_len(response.content) <= max_bytes
            &&& response.truncated <==> text::byte_len(all) > max_bytes
            &&& response.truncated <==> response.truncation_reason is Some
            &&& response.truncated ==> response.truncation_reason == Some("byte_cap"@)
            &&& !response.truncated ==> response.content == all
            &&& response.truncated && max_bytes > 0 ==> {
                &&& text::ends_line(response.content)
                &&& kept.is_prefix_of(all)
                &&& response.content == text::closed_line(kept)
            }
        }),
{
    text::lemma_hard_capped(text::concat(chunks), max_bytes as int);
}

/// A search of a file is told to stop only where it has outgrown the byte cap, or where the
/// counter had reached `max_results` already.
pub proof fn stops_have_a_reason(
    path: Seq<char>,
    events: Seq<SearchEvent>,
    start: usize,
    max_results: usize,
    max_bytes: usize,
)
    requires
        content_run(path, events, start, max_results, max_bytes).stopped,
    ensures
        ({
            let run = content_run(path, events, start, max_results, max_bytes);
            ||| text::byte_len(run.buf) > max_bytes
            ||| exists|prev: usize| prev >= max_results && run.count == #[trigger] prev.wrapping_add(1)
        }),
    decreases events.len(),
{
    let before = content_run(path, events.drop_last(), start, max_results, max_bytes);
    if before.stopped {
        stops_have_a_reason(path, events.drop_last(), start, max_results, max_bytes);
    } else if events.last() is Match && before.count >= max_results {
        let prev = before.count;
        assert(prev.wrapping_add(1) == content_run(
            path,
            events,
            start,
            max_results,
            max_bytes,
        ).count);
    }
}

/// A piece is no longer than the whole that it is part of.
proof fn lemma_piece_len(pieces: Seq<Seq<char>>, i: int)
    requires
        0 <= i < pieces.len(),
    ensures
        text::byte_len(pieces[i]) <= text::byte_len(text::concat(pieces)),
    decreases pieces.len(),
{
    text::lemma_byte_len_concat(text::concat(pieces.drop_last()), pieces.last());
    if i < pieces.len() - 1 {
        lemma_piece_len(pieces.drop_last(), i);
    }
}

/// What outgrows the byte cap is marked: where the text of a single file does, in whatever order
/// the searches come back, the response is truncated and says so.
pub proof fn outgrown_files_are_marked(
    chunks: Seq<Seq<char>>,
    errors: crate::tools::common::ErrorView,
    count: usize,
    max_bytes: usize,
    i: int,
)
    requires
        0 <= i < chunks.len(),
        text::byte_len(chunks[i]) > max_bytes,
    ensures
        streamed_view(chunks, errors, count, max_bytes).truncated,
        streamed_view(chunks, errors, count, max_bytes).truncation_reason == Some("byte_cap"@),
{
    lemma_piece_len(chunks, i);
}

/// What was put out stays, whatever else a walk meets.
proof fn lemma_chunks_grow(
    items: Seq<GrepItem>,
    i: int,
    opts: GrepOptions,
    mode: StreamMode,
    root: Seq<u8>,
)
    requires
        0 <= i <= items.len(),
    ensures
        stream_run(items.take(i), opts, mode, root).chunks.is_prefix_of(
            stream_run(items, opts, mode, root).chunks,
        ),
    decreases items.len() - i,
{
    let early = stream_run(items.take(i), opts, mode, root).chunks;
    if i == items.len() {
        assert(items.take(i) =~= items);
        assert(early =~= early.take(early.len() as int));
    } else {
        let next = stream_run(items.take(i + 1), opts, mode, root).chunks;
        let all = stream_run(items, opts, mode, root).chunks;
        assert(items.take(i + 1).drop_last() =~= items.take(i));
        lemma_chunks_grow(items, i + 1, opts, mode, root);
        assert(early =~= next.take(early.len() as int));
        assert(early =~= all.take(early.len() as int));
    }
}

/// No match is dropped for the byte cap in silence: where the search of a file was stopped because
/// its text had outgrown the cap, the response is truncated and says so.
pub proof fn byte_stops_are_marked(
    items: Seq<GrepItem>,
    i: int,
    opts: GrepOptions,
    root: Seq<u8>,
)
    requires
        0 <= i < items.len(),
        ({
            let before = stream_run(items.take(i), opts, StreamMode::Content, root);
            let item = items[i];
            &&& !before.done
            &&& crate::tools::common::entry_step(
                before.count,
                opts.max_results,
                item.entry,
                opts.file_extensions@,
                root,
                item.resolved,
            ) is Search
            &&& text::byte_len(
                content_run(
                    engines::lossy_text(item.entry->path@),
                    item.search.events@,
                    before.count,
                    opts.max_results,
                    opts.max_bytes,
                ).buf,
            ) > opts.max_bytes
        }),
    ensures
        ({
            let run = stream_run(items, opts, StreamMode::Content, root);
            let response = streamed_view(run.chunks, run.errors, run.count, opts.max_bytes);
            response.truncated && response.truncation_reason == Some("byte_cap"@)
        }),
{
    let before = stream_run(items.take(i), opts, StreamMode::Content, root);
    let after = stream_run(items.take(i + 1), opts, StreamMode::Content, root);
    let run = stream_run(items, opts, StreamMode::Content, root);
    assert(items.take(i + 1).drop_last() =~= items.take(i));
    assert(items.take(i + 1).last() == items[i]);
    let buf = content_run(
        engines::lossy_text(items[i].entry->path@),
        items[i].search.events@,
        before.count,
        opts.max_results,
        opts.max_bytes,
    ).buf;
    text::lemma_byte_len_zero(buf);
    let k = before.chunks.len() as int;
    assert(after.chunks[k] == buf);
    lemma_chunks_grow(items, i + 1, opts, StreamMode::Content, root);
    assert(run.chunks[k] == after.chunks[k]);
    outgrown_files_are_marked(run.chunks, run.errors, run.count, opts.max_bytes, k);
}

/// Whether an entry cannot be read, or is a file of interest whose path cannot be resolved.
pub open spec fn fails(item: GrepItem, opts: GrepOptions) -> bool {
    match item.entry {
        WalkEntry::Failed(_) => true,
        WalkEntry::Found { path, is_file } => is_file && crate::tools::common::extension_passes(
            path@,
            opts.file_extensions@,
        ) && item.resolved is Err,
    }
}

/// No error ends a walk: an entry that cannot be read is counted, and the walk goes on as if it
/// were not there.
pub proof fn entry_errors_end_nothing(
    state: StreamView,
    item: GrepItem,
    opts: GrepOptions,
    mode: StreamMode,
    root: Seq<u8>,
)
    requires
        fails(item, opts),
        state.count < opts.max_results,
    ensures
        stream_step(state, item, opts, mode, root) == (StreamView {
            errors: state.errors.entry_error(
                crate::tools::common::entry_failure(item.entry, item.resolved),
            ),
            ..state
        }),
{
}

/// A file that cannot be searched to its end is counted, keeps what it has put out, and ends
/// nothing that it would not have ended otherwise.
pub proof fn search_errors_end_nothing(
    state: StreamView,
    item: GrepItem,
    flawless: GrepItem,
    opts: GrepOptions,
    mode: StreamMode,
    root: Seq<u8>,
)
    requires
        flawless.entry == item.entry,
        flawless.resolved == item.resolved,
        flawless.search.events == item.search.events,
        flawless.search.failure is None,
    ensures
        ({
            let failed = stream_step(state, item, opts, mode, root);
            let whole = stream_step(state, flawless, opts, mode, root);
            &&& failed.done == whole.done
            &&& failed.count == whole.count
            &&& failed.chunks == whole.chunks
            &&& failed.errors.entry_errors == whole.errors.entry_errors
        }),
{
}

/// What is no file, or has an extension that was not asked for, leaves no trace.
pub proof fn filtered_entries_leave_no_trace(
    state: StreamView,
    item: GrepItem,
    opts: GrepOptions,
    mode: StreamMode,
    root: Seq<u8>,
)
    requires
        item.entry is Found,
        !item.entry->is_file || !crate::tools::common::extension_passes(
            item.entry->path@,
            opts.file_extensions@,
        ),
        state.count < opts.max_results,
    ensures
        stream_step(state, item, opts, mode, root) == state,
{
}

/// Whether `item` is a file within `root` that is searched and has a match.
pub open spec fn is_hit(item: GrepItem, opts: GrepOptions, root: Seq<u8>) -> bool {
    item.entry is Found && item.entry->is_file && crate::tools::common::extension_passes(
        item.entry->path@,
        opts.file_extensions@,
    ) && crate::tools::common::is_in_scope(root, item.resolved) && has_match(item.search.events@)
}

/// The line that lists `item`.
pub open spec fn listing_line(item: GrepItem) -> Seq<char> {
    engines::lossy_text(item.entry->path@).push('\n')
}

/// Every line of a listing stands for a file within the root that has a match.
pub proof fn listed_files_match(items: Seq<GrepItem>, opts: GrepOptions, k: int, root: Seq<u8>)
    requires
        0 <= k < stream_run(items, opts, StreamMode::FilesWithMatches, root).chunks.len(),
    ensures
        exists|i: int|
            0 <= i < items.len() && #[trigger] is_hit(items[i], opts, root) && stream_run(
                items,
                opts,
                StreamMode::FilesWithMatches,
                root,
            ).chunks[k] == listing_line(items[i]),
    decreases items.len(),
{
    let before = stream_run(items.drop_last(), opts, StreamMode::FilesWithMatches, root);
    let after = stream_run(items, opts, StreamMode::FilesWithMatches, root);
    if k < before.chunks.len() {
        listed_files_match(items.drop_last(), opts, k, root);
        let i = choose|i: int|
            0 <= i < items.drop_last().len() && #[trigger] is_hit(items.drop_last()[i], opts, root)
                && before.chunks[k] == listing_line(items.drop_last()[i]);
        assert(is_hit(items[i], opts, root));
    } else {
        assert(is_hit(items[items.len() - 1], opts, root));
    }
}

/// Each file is listed once, if no two files of the walk look the same.
pub proof fn files_are_listed_once(items: Seq<GrepItem>, opts: GrepOptions, root: Seq<u8>)
    requires
        forall|i: int, j: int|
            0 <= i < j < items.len() && is_hit(items[i], opts, root) && is_hit(items[j], opts, root)
                ==> listing_line(#[trigger] items[i]) != listing_line(#[trigger] items[j]),
    ensures
        stream_run(items, opts, StreamMode::FilesWithMatches, root).chunks.no_duplicates(),
    decreases items.len(),
{
    if items.len() > 0 {
        let rest = items.drop_last();
        let n = items.len() - 1;
        assert forall|i: int, j: int|
            0 <= i < j < rest.len() && is_hit(rest[i], opts, root) && is_hit(rest[j], opts, root) implies
            listing_line(#[trigger] rest[i]) != listing_line(#[trigger] rest[j]) by {
            assert(listing_line(items[i]) != listing_line(items[j]));
        }
        files_are_listed_once(rest, opts, root);
        let before = stream_run(rest, opts, StreamMode::FilesWithMatches, root).chunks;
        let after = stream_run(items, opts, StreamMode::FilesWithMatches, root).chunks;
        if after.len() > before.len() {
            assert(is_hit(items[n], opts, root));
            assert forall|k: int| 0 <= k < before.len() implies before[k] != listing_line(
                items[n],
            ) by {
                listed_files_match(rest, opts, k, root);
                let i = choose|i: int|
                    0 <= i < rest.len() && #[trigger] is_hit(rest[i], opts, root) && before[k]
                        == listing_line(rest[i]);
                assert(is_hit(items[i], opts, root));
                assert(listing_line(items[i]) != listing_line(items[n]));
            }
        }
    }
}

/// A walk that ends early has results enough.
proof fn lemma_done_is_full(items: Seq<GrepItem>, opts: GrepOptions, mode: StreamMode, root: Seq<u8>)
    ensures
        stream_run(items, opts, mode, root).done ==> stream_run(items, opts, mode, root).count
            >= opts.max_results,
    decreases items.len(),
{
    if items.len() > 0 {
        lemma_done_is_full(items.drop_last(), opts, mode, root);
    }
}

/// Unless there are results enough, no file with a match is left out of a listing.
pub proof fn no_file_is_missed(items: Seq<GrepItem>, opts: GrepOptions, i: int, root: Seq<u8>)
    requires
        0 <= i < items.len(),
        is_hit(items[i], opts, root),
        stream_run(items, opts, StreamMode::FilesWithMatches, root).count < opts.max_results,
    ensures
        stream_run(items, opts, StreamMode::FilesWithMatches, root).chunks.contains(
            listing_line(items[i]),
        ),
    decreases items.len(),
{
    let rest = items.drop_last();
    let before = stream_run(rest, opts, StreamMode::FilesWithMatches, root);
    let after = stream_run(items, opts, StreamMode::FilesWithMatches, root);
    listing_is_capped(rest, opts, root);
    lemma_done_is_full(rest, opts, StreamMode::FilesWithMatches, root);
    if i < rest.len() {
        no_file_is_missed(rest, opts, i, root);
        let k = choose|k: int|
            0 <= k < before.chunks.len() && before.chunks[k] == listing_line(rest[i]);
        assert(after.chunks[k] == listing_line(items[i]));
    } else {
        assert(after.chunks.last() == listing_line(items[i]));
    }
}

/// How many entries could not be read or resolved.
pub open spec fn failed_entries(items: Seq<GrepItem>, opts: GrepOptions) -> nat
    decreases items.len(),
{
    if items.len() == 0 {
        0
    } else {
        failed_entries(items.drop_last(), opts) + if fails(items.last(), opts) {
            1
        } else {
            0nat
        }
    }
}

/// A walk that goes to its end reports every entry that could not be read or resolved.
pub proof fn entry_errors_are_counted(items: Seq<GrepItem>, opts: GrepOptions, mode: StreamMode, root: Seq<u8>)
    requires
        !stream_run(items, opts, mode, root).done,
    ensures
        stream_run(items, opts, mode, root).errors.entry_errors == counts::as_counter(
            failed_entries(items, opts),
        ),
    decreases items.len(),
{
    if items.len() == 0 {
        counts::lemma_as_counter_add(0, 0);
    } else {
        entry_errors_are_counted(items.drop_last(), opts, mode, root);
        counts::lemma_as_counter_add(failed_entries(items.drop_last(), opts), 1);
    }
}

/// Whether `item` is a file that resolves to a place outside `root`.
pub open spec fn is_outside(item: GrepItem, root: Seq<u8>) -> bool {
    item.entry is Found && item.entry->is_file && item.resolved is Ok
        && !crate::tools::common::is_in_scope(root, item.resolved)
}

/// Whether two walks differ in files outside `root` alone.
pub open spec fn same_inside(a: Seq<GrepItem>, b: Seq<GrepItem>, root: Seq<u8>) -> bool {
    a.len() == b.len() && forall|i: int|
        0 <= i < a.len() ==> (#[trigger] a[i]) == (#[trigger] b[i]) || (is_outside(a[i], root)
            && is_outside(b[i], root))
}

/// Nothing outside the root shows: what a file there is called and what is in it make no
/// difference to any walk, whether or not symlinks are followed.
pub proof fn outside_files_reveal_nothing(
    a: Seq<GrepItem>,
    b: Seq<GrepItem>,
    opts: GrepOptions,
    root: Seq<u8>,
)
    requires
        same_inside(a, b, root),
    ensures
        forall|mode: StreamMode| #[trigger]
            stream_run(a, opts, mode, root) == stream_run(b, opts, mode, root),
        count_run(a, opts, root) == count_run(b, opts, root),
        forall|response: crate::tools::response::ResponseView| #[trigger]
            is_grep_response(response, a, opts, root) == is_grep_response(response, b, opts, root),
    decreases a.len(),
{
    if a.len() > 0 {
        let x = a.drop_last();
        let y = b.drop_last();
        assert forall|i: int| 0 <= i < x.len() implies (#[trigger] x[i]) == (#[trigger] y[i]) || (
        is_outside(x[i], root) && is_outside(y[i], root)) by {
            assert(a[i] == b[i] || (is_outside(a[i], root) && is_outside(b[i], root)));
        }
        outside_files_reveal_nothing(x, y, opts, root);
        let n = a.len() - 1;
        assert(a[n] == b[n] || (is_outside(a[n], root) && is_outside(b[n], root)));
        assert forall|mode: StreamMode| #[trigger] stream_run(a, opts, mode, root) == stream_run(
            b,
            opts,
            mode,
            root,
        ) by {
            assert(stream_run(x, opts, mode, root) == stream_run(y, opts, mode, root));
        }
    } else {
        assert(a =~= b);
    }
    assert(stream_run(a, opts, StreamMode::Content, root) == stream_run(
        b,
        opts,
        StreamMode::Content,
        root,
    ));
    assert(stream_run(a, opts, StreamMode::FilesWithMatches, root) == stream_run(
        b,
        opts,
        StreamMode::FilesWithMatches,
        root,
    ));
}

/// A walk that meets no file within the root finds nothing.
pub proof fn nothing_inside_means_nothing_found(
    items: Seq<GrepItem>,
    opts: GrepOptions,
    mode: StreamMode,
    root: Seq<u8>,
)
    requires
        forall|i: int|
            0 <= i < items.len() && (#[trigger] items[i]).entry is Found && items[i].entry->is_file
                ==> !crate::tools::common::is_in_scope(root, items[i].resolved),
    ensures
        stream_run(items, opts, mode, root).count == 0,
        stream_run(items, opts, mode, root).chunks.len() == 0,
        count_run(items, opts, root).files.len() == 0,
    decreases items.len(),
{
    if items.len() > 0 {
        let rest = items.drop_last();
        assert forall|i: int|
            0 <= i < rest.len() && (#[trigger] rest[i]).entry is Found
                && rest[i].entry->is_file implies !crate::tools::common::is_in_scope(
            root,
            rest[i].resolved,
        ) by {
            assert(items[i].entry is Found);
        }
        nothing_inside_means_nothing_found(rest, opts, mode, root);
        assert(items[items.len() - 1] == items.last());
    }
}

/// Whether two calls ask for the same but for whether case matters.
pub open spec fn same_but_case(a: GrepOptions, b: GrepOptions) -> bool {
    a == (GrepOptions { case_insensitive: a.case_insensitive, ..b })
}

/// Whether case matters is up to the matcher alone: for the same lines reported, the flag makes
/// no difference to the response.
pub proof fn case_is_up_to_the_matcher(
    items: Seq<GrepItem>,
    a: GrepOptions,
    b: GrepOptions,
    root: Seq<u8>,
)
    requires
        same_but_case(a, b),
    ensures
        forall|mode: StreamMode| #[trigger]
            stream_run(items, a, mode, root) == stream_run(items, b, mode, root),
        count_run(items, a, root) == count_run(items, b, root),
        forall|response: crate::tools::response::ResponseView| #[trigger]
            is_grep_response(response, items, a, root) == is_grep_response(
                response,
                items,
                b,
                root,
            ),
    decreases items.len(),
{
    if items.len() > 0 {
        let rest = items.drop_last();
        case_is_up_to_the_matcher(rest, a, b, root);
        assert forall|mode: StreamMode| #[trigger] stream_run(items, a, mode, root) == stream_run(
            items,
            b,
            mode,
            root,
        ) by {
            assert(stream_run(rest, a, mode, root) == stream_run(rest, b, mode, root));
        }
    }
    assert(stream_run(items, a, StreamMode::Content, root) == stream_run(
        items,
        b,
        StreamMode::Content,
        root,
    ));
    assert(stream_run(items, a, StreamMode::FilesWithMatches, root) == stream_run(
        items,
        b,
        StreamMode::FilesWithMatches,
        root,
    ));
}

} // verus!
