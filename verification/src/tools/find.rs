//! The `find` tool: locates files by a regex on their names or paths.
//!
//! As with `grep`, walking the tree is the caller's part, and many walkers may share one counter
//! of results. [`find`] is the whole tool for a single walker.

use regex::Regex;
use vstd::prelude::*;
use vstd::string::*;

use crate::engines::{self, compile_regex, regex_is_match, utf8_lossy};
use crate::error::AppError;
use crate::paths;
use crate::text;
use crate::tools::common::{in_scope, ErrorState, WalkEntry};
use crate::tools::options::FindOptions;
use crate::tools::response::ToolResponse;

verus! {

/// An entry of a walk, and what came of resolving its path.
#[derive(Debug)]
pub struct FindItem {
    pub entry: WalkEntry,
    pub resolved: Result<Vec<u8>, String>,
}

/// What the walk does with an entry.
#[derive(Debug)]
pub enum FindStep {
    /// End the walk: there are results enough.
    Quit,
    /// The entry is of no interest.
    Skip,
    /// The entry could not be read or resolved: record that.
    Failed,
    /// The entry is a file. The text decides whether it is a result.
    Test(String),
}

/// A [`FindStep`] with its text as a sequence of characters.
pub enum FindStepView {
    Quit,
    Skip,
    Failed,
    Test(Seq<char>),
}

impl View for FindStep {
    type V = FindStepView;

    open spec fn view(&self) -> FindStepView {
        match *self {
            FindStep::Quit => FindStepView::Quit,
            FindStep::Skip => FindStepView::Skip,
            FindStep::Failed => FindStepView::Failed,
            FindStep::Test(hay) => FindStepView::Test(hay@),
        }
    }
}

/// The text that the pattern is tried on: the last component of `path`, or all of it. A path may
/// have no last component.
pub open spec fn hay_of(path: Seq<u8>, match_basename: bool) -> Option<Seq<char>> {
    if match_basename {
        match paths::name_of(path) {
            Some(name) => Some(engines::lossy_text(name)),
            None => None,
        }
    } else {
        Some(engines::lossy_text(path))
    }
}

/// What becomes of `entry` on a walk that has `count` results out of at most `max_results`, and
/// `resolved` being what came of resolving its path. A file that resolves to a place outside
/// `root` is passed over.
pub open spec fn find_step(
    count: usize,
    max_results: usize,
    entry: WalkEntry,
    match_basename: bool,
    root: Seq<u8>,
    resolved: Result<Vec<u8>, String>,
) -> FindStepView {
    if count >= max_results {
        FindStepView::Quit
    } else {
        match entry {
            WalkEntry::Failed(_) => FindStepView::Failed,
            WalkEntry::Found { path, is_file } => match hay_of(path@, match_basename) {
                Some(hay) if is_file => if resolved is Err {
                    FindStepView::Failed
                } else if crate::tools::common::is_in_scope(root, resolved) {
                    FindStepView::Test(hay)
                } else {
                    FindStepView::Skip
                },
                _ => FindStepView::Skip,
            },
        }
    }
}

/// Decides what becomes of `entry` on a walk that has `count` results out of at most
/// `max_results`. `resolved` is what came of resolving the path of the entry; it matters for
/// files only.
pub fn judge_find_entry(
    count: usize,
    max_results: usize,
    entry: &WalkEntry,
    match_basename: bool,
    root: &[u8],
    resolved: &Result<Vec<u8>, String>,
) -> (step: FindStep)
    ensures
        step@ == find_step(count, max_results, *entry, match_basename, root@, *resolved),
        step is Test ==> (resolved matches Ok(p) && paths::is_within(p@, root@)),
{
    if count >= max_results {
        return FindStep::Quit;
    }
    match entry {
        WalkEntry::Failed(_) => FindStep::Failed,
        WalkEntry::Found { path, is_file } => {
            if !*is_file {
                return FindStep::Skip;
            }
            let hay = if match_basename {
                match paths::file_name(path.as_slice()) {
                    Some(name) => utf8_lossy(name.as_slice()),
                    None => {
                        return FindStep::Skip;
                    },
                }
            } else {
                utf8_lossy(path.as_slice())
            };
            if resolved.is_err() {
                FindStep::Failed
            } else if in_scope(root, resolved) {
                FindStep::Test(hay)
            } else {
                FindStep::Skip
            }
        },
    }
}

/// The line for a result that raised the counter from `prev`. There is none if the walk has
/// results enough; then it ends.
pub fn find_hit(prev: usize, max_results: usize, path: &[u8]) -> (line: Option<String>)
    ensures
        crate::tools::response::text_of(line) == if prev < max_results {
            Some(engines::lossy_text(path@).push('\n'))
        } else {
            None::<Seq<char>>
        },
{
    if prev >= max_results {
        return None;
    }
    let mut line = utf8_lossy(path);
    text::push_newline(&mut line);
    Some(line)
}

/// Compiles the pattern of a search.
pub fn build_pattern(pattern: &str) -> (re: Result<Regex, AppError>)
    ensures
        match engines::compiled_regex(pattern@) {
            Ok(r) => re == Ok::<Regex, AppError>(r),
            Err(e) => re matches Err(err) && err@ == crate::error::AppErrorView::Regex(e),
        },
{
    match compile_regex(pattern) {
        Ok(r) => Ok(r),
        Err(e) => Err(AppError::Regex(e)),
    }
}

/// The state of a walk.
pub struct FindView {
    /// The counter of results.
    pub count: usize,
    /// The lines put out so far.
    pub lines: Seq<Seq<char>>,
    pub errors: crate::tools::common::ErrorView,
    /// Whether the walk has ended.
    pub done: bool,
}

/// One more entry of a walk. `hit` tells whether the pattern is found in the entry's text.
pub open spec fn walk_step(
    state: FindView,
    item: FindItem,
    hit: bool,
    opts: FindOptions,
    root: Seq<u8>,
) -> FindView {
    match find_step(
        state.count,
        opts.max_results,
        item.entry,
        opts.match_basename,
        root,
        item.resolved,
    ) {
        FindStepView::Quit => FindView { done: true, ..state },
        FindStepView::Skip => state,
        FindStepView::Failed => FindView {
            errors: state.errors.entry_error(
                crate::tools::common::entry_failure(item.entry, item.resolved),
            ),
            ..state
        },
        FindStepView::Test(_) => if hit {
            FindView {
                count: state.count.wrapping_add(1),
                lines: state.lines.push(engines::lossy_text(item.entry->path@).push('\n')),
                errors: state.errors,
                done: state.count.wrapping_add(1) >= opts.max_results,
            }
        } else {
            state
        },
    }
}

/// A walk over `entries`, where `hits` tells in whose text the pattern is found.
pub open spec fn find_run(entries: Seq<FindItem>, hits: Seq<bool>, opts: FindOptions, root: Seq<u8>) -> FindView
    decreases entries.len(),
{
    if entries.len() == 0 {
        FindView {
            count: 0,
            lines: Seq::empty(),
            errors: crate::tools::common::ErrorView::empty(),
            done: false,
        }
    } else {
        let state = find_run(entries.drop_last(), hits, opts, root);
        if state.done {
            state
        } else {
            walk_step(state, entries.last(), hits[entries.len() - 1], opts, root)
        }
    }
}

/// The response, once the walk has ended.
pub open spec fn find_view(
    lines: Seq<Seq<char>>,
    errors: crate::tools::common::ErrorView,
    count: usize,
) -> crate::tools::response::ResponseView {
    crate::tools::response::ResponseView {
        content: text::concat(lines),
        truncated: false,
        truncation_reason: None,
        match_count: Some(count),
        entry_error_count: Some(errors.entry_errors),
        search_error_count: Some(0),
        first_error: errors.first_entry_err,
    }
}

/// The response, once the walk has ended: `lines` are those of the results, and `count` what the
/// shared counter holds.
pub fn find_response(lines: &Vec<String>, errors: ErrorState, count: usize) -> (response:
    ToolResponse)
    ensures
        response@ == find_view(text::texts_of(lines@), errors@, count),
{
    let mut content = String::new();
    let ghost all = text::texts_of(lines@);
    let mut i: usize = 0;
    assert(all.take(0) =~= Seq::<Seq<char>>::empty());
    while i < lines.len()
        invariant
            i <= lines@.len(),
            all == text::texts_of(lines@),
            content@ == text::concat(all.take(i as int)),
        decreases lines@.len() - i,
    {
        assert(all.take(i + 1).drop_last() =~= all.take(i as int));
        content.append(lines[i].as_str());
        i = i + 1;
    }
    assert(all.take(all.len() as int) =~= all);
    ToolResponse {
        content,
        truncated: false,
        truncation_reason: None,
        match_count: Some(count),
        entry_error_count: Some(errors.entry_errors),
        search_error_count: Some(0),
        first_error: errors.first_entry_err,
    }
}

/// A walk that has ended takes no more entries.
proof fn lemma_done_stays(entries: Seq<FindItem>, hits: Seq<bool>, i: int, opts: FindOptions, root: Seq<u8>)
    requires
        0 <= i <= entries.len(),
        i == entries.len() || find_run(entries.take(i), hits, opts, root).done,
    ensures
        find_run(entries, hits, opts, root) == find_run(entries.take(i), hits, opts, root),
    decreases entries.len() - i,
{
    if i == entries.len() {
        assert(entries.take(i) =~= entries);
    } else {
        assert(entries.take(i + 1).drop_last() =~= entries.take(i));
        lemma_done_stays(entries, hits, i + 1, opts, root);
    }
}

/// The tool for a single walker that reports `entries`, where `hits` tells in whose text the
/// pattern is found.
pub fn find_among(
    entries: &Vec<FindItem>,
    hits: &Vec<bool>,
    opts: &FindOptions,
    root: &[u8],
) -> (response: ToolResponse)
    requires
        hits@.len() == entries@.len(),
    ensures
        ({
            let run = find_run(entries@, hits@, *opts, root@);
            response@ == find_view(run.lines, run.errors, run.count)
        }),
{
    let mut count: usize = 0;
    let mut lines: Vec<String> = Vec::new();
    let mut errors = ErrorState::new();
    let mut done = false;
    let mut i: usize = 0;
    proof {
        assert(entries@.take(0) =~= Seq::<FindItem>::empty());
        assert(text::texts_of(lines@) =~= Seq::<Seq<char>>::empty());
    }
    while i < entries.len() && !done
        invariant
            i <= entries@.len(),
            hits@.len() == entries@.len(),
            find_run(entries@.take(i as int), hits@, *opts, root@) == (FindView {
                count,
                lines: text::texts_of(lines@),
                errors: errors@,
                done,
            }),
        decreases entries@.len() - i,
    {
        assert(entries@.take(i + 1).drop_last() =~= entries@.take(i as int));
        assert(entries@.take(i + 1).last() == entries@[i as int]);
        match judge_find_entry(
            count,
            opts.max_results,
            &entries[i].entry,
            opts.match_basename,
            root,
            &entries[i].resolved,
        ) {
            FindStep::Quit => {
                done = true;
            },
            FindStep::Skip => {},
            FindStep::Failed => {
                errors.record_failure(&entries[i].entry, &entries[i].resolved);
            },
            FindStep::Test(_) => {
                if hits[i] {
                    if let WalkEntry::Found { path, is_file: _ } = &entries[i].entry {
                        let ghost lines0 = lines@;
                        if let Some(line) = find_hit(count, opts.max_results, path.as_slice()) {
                            lines.push(line);
                            assert(text::texts_of(lines@) =~= text::texts_of(lines0).push(line@));
                        }
                        count = count.wrapping_add(1);
                        done = count >= opts.max_results;
                    }
                }
            },
        }
        i = i + 1;
    }
    proof {
        lemma_done_stays(entries@, hits@, i as int, *opts, root@);
    }
    find_response(&lines, errors, count)
}

/// In whose text the pattern is found.
pub open spec fn hits_of(re: Regex, entries: Seq<FindItem>, match_basename: bool) -> Seq<bool> {
    Seq::new(
        entries.len(),
        |i: int|
            entries[i].entry matches WalkEntry::Found { path, .. } && hay_of(path@, match_basename)
                matches Some(hay) && engines::regex_finds(re, hay),
    )
}

/// Tries the pattern on the text of an entry.
pub fn is_found(re: &Regex, hay: &str) -> (found: bool)
    ensures
        found == engines::regex_finds(*re, hay@),
{
    regex_is_match(re, hay)
}

/// Tries the pattern on the text of one entry, if it has any.
fn is_hit(re: &Regex, entry: &WalkEntry, match_basename: bool) -> (hit: bool)
    ensures
        hit == (entry matches WalkEntry::Found { path, .. } && hay_of(path@, match_basename)
            matches Some(hay) && engines::regex_finds(*re, hay)),
{
    match entry {
        WalkEntry::Failed(_) => false,
        WalkEntry::Found { path, is_file: _ } => {
            if match_basename {
                match paths::file_name(path.as_slice()) {
                    Some(name) => is_found(re, utf8_lossy(name.as_slice()).as_str()),
                    None => false,
                }
            } else {
                is_found(re, utf8_lossy(path.as_slice()).as_str())
            }
        },
    }
}

/// Finds files by regex, for a single walker that reports `entries`. The pattern is tried on the
/// last component of each path, or on the whole path if `opts` say so. Entries that cannot be
/// read are counted in the response and end nothing.
pub fn find(
    pattern: &str,
    opts: &FindOptions,
    entries: &Vec<FindItem>,
    root: &[u8],
) -> (outcome: Result<ToolResponse, AppError>)
    ensures
        match engines::compiled_regex(pattern@) {
            Ok(re) => {
                let run = find_run(entries@, hits_of(re, entries@, opts.match_basename), *opts, root@);
                outcome matches Ok(response) && response@ == find_view(
                    run.lines,
                    run.errors,
                    run.count,
                )
            },
            Err(e) => outcome matches Err(err) && err@ == crate::error::AppErrorView::Regex(e),
        },
{
    let re = match build_pattern(pattern) {
        Ok(re) => re,
        Err(e) => {
            return Err(e);
        },
    };
    let mut hits: Vec<bool> = Vec::new();
    let mut i: usize = 0;
    while i < entries.len()
        invariant
            i <= entries@.len(),
            hits@ == hits_of(re, entries@, opts.match_basename).take(i as int),
        decreases entries@.len() - i,
    {
        hits.push(is_hit(&re, &entries[i].entry, opts.match_basename));
        assert(hits@ =~= hits_of(re, entries@, opts.match_basename).take(i + 1));
        i = i + 1;
    }
    assert(hits@ =~= hits_of(re, entries@, opts.match_basename));
    Ok(find_among(entries, &hits, opts, root))
}

/// A single walker finds no more than `max_results` files, reports as many as it lists, and gives
/// each of them a line.
pub proof fn found_is_capped(entries: Seq<FindItem>, hits: Seq<bool>, opts: FindOptions, root: Seq<u8>)
    ensures
        find_run(entries, hits, opts, root).count <= opts.max_results,
        find_run(entries, hits, opts, root).lines.len() == find_run(entries, hits, opts, root).count,
    decreases entries.len(),
{
    if entries.len() > 0 {
        found_is_capped(entries.drop_last(), hits, opts, root);
    }
}

/// Whether `item` is a file within `root` that `line` lists.
pub open spec fn lists(item: FindItem, line: Seq<char>, root: Seq<u8>) -> bool {
    item.entry is Found && item.entry->is_file && crate::tools::common::is_in_scope(
        root,
        item.resolved,
    ) && line == engines::lossy_text(item.entry->path@).push('\n')
}

/// Every line stands for a file of the walk that lies within the root and in whose text the
/// pattern is found.
pub proof fn found_are_hits(entries: Seq<FindItem>, hits: Seq<bool>, opts: FindOptions, k: int, root: Seq<u8>)
    requires
        0 <= k < find_run(entries, hits, opts, root).lines.len(),
    ensures
        exists|i: int|
            0 <= i < entries.len() && hits[i] && #[trigger] lists(
                entries[i],
                find_run(entries, hits, opts, root).lines[k],
                root,
            ),
    decreases entries.len(),
{
    let n = entries.len() - 1;
    let before = find_run(entries.drop_last(), hits, opts, root);
    let line = find_run(entries, hits, opts, root).lines[k];
    if k < before.lines.len() {
        found_are_hits(entries.drop_last(), hits, opts, k, root);
        let i = choose|i: int|
            0 <= i < entries.drop_last().len() && hits[i] && #[trigger] lists(
                entries.drop_last()[i],
                before.lines[k],
                root,
            );
        assert(lists(entries[i], line, root));
    } else {
        assert(lists(entries[n], line, root));
    }
}

/// Unless there are results enough, no file within the root in whose text the
/// pattern is found is left out.
pub proof fn no_hit_is_missed(entries: Seq<FindItem>, hits: Seq<bool>, opts: FindOptions, i: int, root: Seq<u8>)
    requires
        0 <= i < entries.len(),
        hits[i],
        entries[i].entry is Found,
        entries[i].entry->is_file,
        crate::tools::common::is_in_scope(root, entries[i].resolved),
        hay_of(entries[i].entry->path@, opts.match_basename) is Some,
        find_run(entries, hits, opts, root).count < opts.max_results,
    ensures
        find_run(entries, hits, opts, root).lines.contains(
            engines::lossy_text(entries[i].entry->path@).push('\n'),
        ),
    decreases entries.len(),
{
    let before = find_run(entries.drop_last(), hits, opts, root);
    let after = find_run(entries, hits, opts, root);
    let line = engines::lossy_text(entries[i].entry->path@).push('\n');
    found_is_capped(entries.drop_last(), hits, opts, root);
    lemma_done_is_full(entries.drop_last(), hits, opts, root);
    if i < entries.len() - 1 {
        assert(before.count <= after.count);
        no_hit_is_missed(entries.drop_last(), hits, opts, i, root);
        let j = choose|j: int| 0 <= j < before.lines.len() && before.lines[j] == line;
        assert(after.lines[j] == line);
    } else {
        assert(after.lines.last() == line);
    }
}

/// A walk ends early only when there are results enough.
proof fn lemma_done_is_full(entries: Seq<FindItem>, hits: Seq<bool>, opts: FindOptions, root: Seq<u8>)
    ensures
        find_run(entries, hits, opts, root).done ==> find_run(entries, hits, opts, root).count
            >= opts.max_results,
    decreases entries.len(),
{
    if entries.len() > 0 {
        lemma_done_is_full(entries.drop_last(), hits, opts, root);
    }
}

/// Whether `item` is a file that resolves to a place outside `root`.
pub open spec fn is_outside(item: FindItem, root: Seq<u8>) -> bool {
    item.entry is Found && item.entry->is_file && item.resolved is Ok
        && !crate::tools::common::is_in_scope(root, item.resolved)
}

/// Whether two walks, and where the pattern is found, differ in files outside `root` alone.
pub open spec fn same_inside(
    a: Seq<FindItem>,
    a_hits: Seq<bool>,
    b: Seq<FindItem>,
    b_hits: Seq<bool>,
    root: Seq<u8>,
) -> bool {
    a.len() == b.len() && forall|i: int|
        0 <= i < a.len() ==> ((#[trigger] a[i]) == (#[trigger] b[i]) && a_hits[i] == b_hits[i]) || (
        is_outside(a[i], root) && is_outside(b[i], root))
}

/// Nothing outside the root shows: what is there makes no difference to any walk.
pub proof fn outside_files_reveal_nothing(
    a: Seq<FindItem>,
    a_hits: Seq<bool>,
    b: Seq<FindItem>,
    b_hits: Seq<bool>,
    opts: FindOptions,
    root: Seq<u8>,
)
    requires
        same_inside(a, a_hits, b, b_hits, root),
    ensures
        find_run(a, a_hits, opts, root) == find_run(b, b_hits, opts, root),
    decreases a.len(),
{
    if a.len() > 0 {
        let x = a.drop_last();
        let y = b.drop_last();
        assert forall|i: int| 0 <= i < x.len() implies ((#[trigger] x[i]) == (#[trigger] y[i])
            && a_hits[i] == b_hits[i]) || (is_outside(x[i], root) && is_outside(y[i], root)) by {
            assert(x[i] == a[i] && y[i] == b[i]);
        }
        outside_files_reveal_nothing(x, a_hits, y, b_hits, opts, root);
        let n = a.len() - 1;
        assert(a[n] == a.last() && b[n] == b.last());
    }
}

} // verus!
