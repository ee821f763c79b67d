//! What `grep` answers: which files and lines, in what order, and what it says about the rest.

use vstd::prelude::*;
use vstd::utf8::*;

use crate::engines;
use crate::paths;
use crate::text;
use crate::tools::common::WalkEntry;
use crate::tools::grep::{GrepItem, SearchEvent, StreamMode};
use crate::tools::options::{GrepOptions, OutputMode};

verus! {

/// Whether `item` is a file to be searched: one whose extension was asked for, and that resolves to
/// a place within `root`.
pub open spec fn is_searched(item: GrepItem, extensions: Seq<String>, root: Seq<u8>) -> bool {
    &&& item.entry matches WalkEntry::Found { path, is_file }
    &&& is_file
    &&& crate::tools::common::extension_passes(path@, extensions)
    &&& item.resolved matches Ok(place) && paths::is_within(place@, root)
}

/// Whether a line of `item` matches.
pub open spec fn has_a_match(item: GrepItem) -> bool {
    exists|i: int| 0 <= i < item.search.events@.len() && (#[trigger] item.search.events@[i]) is Match
}

/// The path of a file as it is shown.
pub open spec fn shown_path(item: GrepItem) -> Seq<char> {
    engines::lossy_text(item.entry->path@)
}

/// The files of a walk that are searched, in its order.
pub open spec fn searched_files(
    items: Seq<GrepItem>,
    extensions: Seq<String>,
    root: Seq<u8>,
) -> Seq<GrepItem> {
    items.filter(|item: GrepItem| is_searched(item, extensions, root))
}

/// The files of a walk that are searched and have a match, in its order.
pub open spec fn matching_files(
    items: Seq<GrepItem>,
    extensions: Seq<String>,
    root: Seq<u8>,
) -> Seq<GrepItem> {
    items.filter(|item: GrepItem| is_searched(item, extensions, root) && has_a_match(item))
}

/// One more entry of a walk is one more such file, or not.
proof fn lemma_filters(items: Seq<GrepItem>, extensions: Seq<String>, root: Seq<u8>)
    ensures
        items.len() == 0 ==> searched_files(items, extensions, root) == Seq::<GrepItem>::empty()
            && matching_files(items, extensions, root) == Seq::<GrepItem>::empty(),
        items.len() > 0 ==> searched_files(items, extensions, root) == (if is_searched(
            items.last(),
            extensions,
            root,
        ) {
            searched_files(items.drop_last(), extensions, root).push(items.last())
        } else {
            searched_files(items.drop_last(), extensions, root)
        }),
        items.len() > 0 ==> matching_files(items, extensions, root) == (if is_searched(
            items.last(),
            extensions,
            root,
        ) && has_a_match(items.last()) {
            matching_files(items.drop_last(), extensions, root).push(items.last())
        } else {
            matching_files(items.drop_last(), extensions, root)
        }),
{
    reveal(Seq::filter);
}

/// The smaller of two numbers.
pub open spec fn least(a: int, b: int) -> int {
    if a < b {
        a
    } else {
        b
    }
}

/// `files_with_matches` mode lists the first files of the walk that are searched and have a match,
/// as many as were asked for, each by its path on a line of its own; and it counts what it lists.
pub proof fn the_first_matching_files_are_listed(
    items: Seq<GrepItem>,
    opts: GrepOptions,
    root: Seq<u8>,
)
    ensures
        ({
            let run = crate::tools::grep::stream_run(
                items,
                opts,
                StreamMode::FilesWithMatches,
                root,
            );
            let hits = matching_files(items, opts.file_extensions@, root);
            let n = least(hits.len() as int, opts.max_results as int);
            &&& run.count == n
            &&& run.chunks == hits.take(n).map_values(
                |item: GrepItem| shown_path(item) + seq!['\n'],
            )
            &&& run.done ==> n == opts.max_results
        }),
    decreases items.len(),
{
    let line = |item: GrepItem| shown_path(item) + seq!['\n'];
    let run = crate::tools::grep::stream_run(items, opts, StreamMode::FilesWithMatches, root);
    let hits = matching_files(items, opts.file_extensions@, root);
    let n = least(hits.len() as int, opts.max_results as int);
    lemma_filters(items, opts.file_extensions@, root);
    if items.len() > 0 {
        let rest = items.drop_last();
        let item = items.last();
        the_first_matching_files_are_listed(rest, opts, root);
        let before = matching_files(rest, opts.file_extensions@, root);
        let m = least(before.len() as int, opts.max_results as int);
        if n == m {
            assert(hits.take(n) =~= before.take(m));
        } else {
            assert(hits.take(n) =~= before.take(m).push(item));
            assert(hits.take(n).map_values(line) =~= before.take(m).map_values(line).push(
                line(item),
            ));
            assert(shown_path(item).push('\n') =~= line(item));
        }
        assert(run.chunks =~= hits.take(n).map_values(line));
    } else {
        assert(run.chunks =~= hits.take(n).map_values(line));
    }
}

/// `count` mode counts the first files of the walk that are searched and have a match, as many as
/// were asked for: the extension filter holds for them as in any other mode. Each goes into the
/// tally by its path, with the number of its matches.
pub proof fn the_first_matching_files_are_counted(
    items: Seq<GrepItem>,
    opts: GrepOptions,
    root: Seq<u8>,
)
    ensures
        ({
            let run = crate::tools::grep::count_run(items, opts, root);
            let hits = matching_files(items, opts.file_extensions@, root);
            let n = least(hits.len() as int, opts.max_results as int);
            &&& run.file_count == n
            &&& run.files.len() == n
            &&& forall|k: int|
                0 <= k < n ==> (#[trigger] run.files[k]).0 == shown_path(hits[k]) && run.files[k].1
                    == crate::laws::lines::matches_among(hits[k].search.events@)
            &&& run.done ==> n == opts.max_results
        }),
    decreases items.len(),
{
    lemma_filters(items, opts.file_extensions@, root);
    if items.len() > 0 {
        let rest = items.drop_last();
        let item = items.last();
        the_first_matching_files_are_counted(rest, opts, root);
        let events = item.search.events@;
        crate::laws::lines::lemma_matches_among(events);
        assert(item.search.events.len() <= usize::MAX);
        crate::tools::counts::lemma_as_counter_add(
            crate::laws::lines::matches_among(events),
            0,
        );
        assert(has_a_match(item) <==> crate::laws::lines::matches_among(events) > 0);
    }
}

/// In `count` mode too, an entry that is no file, or whose extension was not asked for, or that
/// lies elsewhere, leaves the state of the walk as it was.
pub proof fn filtered_entries_leave_no_trace_in_a_count(
    state: crate::tools::grep::CountView,
    item: GrepItem,
    opts: GrepOptions,
    root: Seq<u8>,
)
    requires
        state.file_count < opts.max_results,
        item.entry is Found,
        !item.entry->is_file || !crate::tools::common::extension_passes(
            item.entry->path@,
            opts.file_extensions@,
        ) || (item.resolved matches Ok(place) && !paths::is_within(place@, root)),
    ensures
        crate::tools::grep::count_step(state, item, opts, root) == state,
{
}

/// In `count` mode a file is searched to its end, so that a failure always counts, and the first
/// one is kept, behind the path of its file. Errors about entries are left alone. The walk ends
/// when there are files enough, and only then.
pub proof fn a_counted_file_adds_its_own(items: Seq<GrepItem>, opts: GrepOptions, root: Seq<u8>)
    requires
        items.len() > 0,
        !crate::tools::grep::count_run(items.drop_last(), opts, root).done,
        crate::tools::grep::count_run(items.drop_last(), opts, root).file_count < opts.max_results,
        is_searched(items.last(), opts.file_extensions@, root),
    ensures
        ({
            let before = crate::tools::grep::count_run(items.drop_last(), opts, root);
            let after = crate::tools::grep::count_run(items, opts, root);
            let item = items.last();
            let failed = item.search.failure is Some;
            &&& after.files.len() == before.files.len() + (if has_a_match(item) {
                1int
            } else {
                0
            })
            &&& after.done <==> after.file_count >= opts.max_results
            &&& after.errors.entry_errors == before.errors.entry_errors
            &&& after.errors.first_entry_err == before.errors.first_entry_err
            &&& !failed ==> after.errors.search_errors == before.errors.search_errors
                && after.errors.first_search_err == before.errors.first_search_err
            &&& failed && before.errors.search_errors < usize::MAX
                ==> after.errors.search_errors == before.errors.search_errors + 1
            &&& failed && before.errors.first_search_err is Some ==> after.errors.first_search_err
                == before.errors.first_search_err
            &&& failed && before.errors.first_search_err is None ==> after.errors.first_search_err
                == Some(shown_path(item) + seq![':', ' '] + item.search.failure->Some_0@)
        }),
{
    reveal_strlit(": ");
    assert(": "@ =~= seq![':', ' ']);
    the_first_matching_files_are_counted(items, opts, root);
    the_first_matching_files_are_counted(items.drop_last(), opts, root);
    lemma_filters(items, opts.file_extensions@, root);
}

/// Every other entry adds no file to a count: an error is noted, and the rest leaves no trace. A
/// walk that has files enough is over, and stays as it is.
pub proof fn other_entries_add_nothing_to_a_count(
    items: Seq<GrepItem>,
    opts: GrepOptions,
    root: Seq<u8>,
)
    requires
        items.len() > 0,
    ensures
        ({
            let before = crate::tools::grep::count_run(items.drop_last(), opts, root);
            let after = crate::tools::grep::count_run(items, opts, root);
            let over = before.done || before.file_count >= opts.max_results;
            &&& over || !is_searched(items.last(), opts.file_extensions@, root) ==> after.file_count
                == before.file_count && after.files == before.files && after.errors.search_errors
                == before.errors.search_errors && after.errors.first_search_err
                == before.errors.first_search_err
            &&& over ==> after.done && after.errors == before.errors
            &&& !over && !is_searched(items.last(), opts.file_extensions@, root) ==> !after.done
        }),
{
}

/// A walk begins with nothing found and nothing on record.
pub proof fn walks_begin_with_nothing(opts: GrepOptions, mode: StreamMode, root: Seq<u8>)
    ensures
        ({
            let none = Seq::<GrepItem>::empty();
            let stream = crate::tools::grep::stream_run(none, opts, mode, root);
            let count = crate::tools::grep::count_run(none, opts, root);
            &&& stream.count == 0
            &&& stream.chunks == Seq::<Seq<char>>::empty()
            &&& !stream.done
            &&& stream.errors.entry_errors == 0
            &&& stream.errors.search_errors == 0
            &&& stream.errors.first_entry_err is None
            &&& stream.errors.first_search_err is None
            &&& count.file_count == 0
            &&& count.files.len() == 0
            &&& !count.done
            &&& count.errors.entry_errors == 0
            &&& count.errors.search_errors == 0
            &&& count.errors.first_entry_err is None
            &&& count.errors.first_search_err is None
        }),
{
}

/// Whether `item` stands for an error: an entry that could not be read, or a file whose extension
/// was asked for and whose path could not be resolved.
pub open spec fn is_unreadable(item: GrepItem, extensions: Seq<String>) -> bool {
    match item.entry {
        WalkEntry::Failed(_) => true,
        WalkEntry::Found { path, is_file } => is_file && crate::tools::common::extension_passes(
            path@,
            extensions,
        ) && item.resolved is Err,
    }
}

/// What is said of such an item: the error, behind the path where there is one.
pub open spec fn complaint(item: GrepItem) -> Seq<char> {
    match item.entry {
        WalkEntry::Failed(msg) => msg@,
        WalkEntry::Found { path, .. } => engines::lossy_text(path@) + seq![':', ' ']
            + item.resolved->Err_0@,
    }
}

/// The items of a walk that stand for errors, in its order.
pub open spec fn unreadable(items: Seq<GrepItem>, extensions: Seq<String>) -> Seq<GrepItem> {
    items.filter(|item: GrepItem| is_unreadable(item, extensions))
}

/// The message that stays is the first one.
pub open spec fn first_of(messages: Seq<Seq<char>>) -> Option<Seq<char>> {
    if messages.len() > 0 {
        Some(messages[0])
    } else {
        None
    }
}

/// Errors on the way are counted, each once, and the first of them is kept; none of them ends the
/// walk. What is left out by the filter, or lies elsewhere, is no error.
pub proof fn unreadable_entries_are_counted(
    items: Seq<GrepItem>,
    opts: GrepOptions,
    mode: StreamMode,
    root: Seq<u8>,
)
    requires
        items.len() <= usize::MAX,
    ensures
        ({
            let run = crate::tools::grep::stream_run(items, opts, mode, root);
            let failed = unreadable(items, opts.file_extensions@);
            !run.done ==> run.errors.entry_errors == failed.len() && run.errors.first_entry_err
                == first_of(failed.map_values(|item: GrepItem| complaint(item)))
        }),
        ({
            let run = crate::tools::grep::count_run(items, opts, root);
            let failed = unreadable(items, opts.file_extensions@);
            !run.done ==> run.errors.entry_errors == failed.len() && run.errors.first_entry_err
                == first_of(failed.map_values(|item: GrepItem| complaint(item)))
        }),
        unreadable(items, opts.file_extensions@).len() <= items.len(),
    decreases items.len(),
{
    reveal(Seq::filter);
    reveal_strlit(": ");
    assert(": "@ =~= seq![':', ' ']);
    if items.len() > 0 {
        unreadable_entries_are_counted(items.drop_last(), opts, mode, root);
        let before = unreadable(items.drop_last(), opts.file_extensions@);
        let failed = unreadable(items, opts.file_extensions@);
        let say = |item: GrepItem| complaint(item);
        assert(is_unreadable(items.last(), opts.file_extensions@) ==> failed =~= before.push(
            items.last(),
        ));
        if is_unreadable(items.last(), opts.file_extensions@) && before.len() > 0 {
            assert(failed.map_values(say)[0] == before.map_values(say)[0]);
        }
    }
}

/// Whether the search of `item` is told to stop before its end, with the counter at `start`: at its
/// first match in `files_with_matches` mode, and at the first line refused in `content` mode.
pub open spec fn is_stopped(item: GrepItem, start: usize, opts: GrepOptions, mode: StreamMode) -> bool {
    match mode {
        StreamMode::FilesWithMatches => has_a_match(item),
        StreamMode::Content => crate::tools::grep::content_run(
            shown_path(item),
            item.search.events@,
            start,
            opts.max_results,
            opts.max_bytes,
        ).stopped,
    }
}

/// A file that is searched adds its own to what the walk has: in `content` mode the lines that its
/// search shows. A search that fails before it is told to stop is counted as failed, and the first
/// such failure is kept, behind the path of its file; nothing else changes. The walk ends when
/// there are results enough, and only then.
pub proof fn a_searched_file_adds_its_own(
    items: Seq<GrepItem>,
    opts: GrepOptions,
    mode: StreamMode,
    root: Seq<u8>,
)
    requires
        items.len() > 0,
        !crate::tools::grep::stream_run(items.drop_last(), opts, mode, root).done,
        crate::tools::grep::stream_run(items.drop_last(), opts, mode, root).count
            < opts.max_results,
        is_searched(items.last(), opts.file_extensions@, root),
    ensures
        ({
            let before = crate::tools::grep::stream_run(items.drop_last(), opts, mode, root);
            let after = crate::tools::grep::stream_run(items, opts, mode, root);
            let item = items.last();
            let file = crate::tools::grep::content_run(
                shown_path(item),
                item.search.events@,
                before.count,
                opts.max_results,
                opts.max_bytes,
            );
            let failed = item.search.failure is Some && !is_stopped(item, before.count, opts, mode);
            &&& mode is Content ==> after.count == file.count && after.chunks.flatten()
                == before.chunks.flatten() + file.buf
            &&& mode is FilesWithMatches ==> after.count == before.count + (if has_a_match(item) {
                1int
            } else {
                0
            }) && after.chunks.flatten() == before.chunks.flatten() + (if has_a_match(item) {
                shown_path(item) + seq!['\n']
            } else {
                Seq::empty()
            })
            &&& after.done <==> after.count >= opts.max_results
            &&& after.errors.entry_errors == before.errors.entry_errors
            &&& after.errors.first_entry_err == before.errors.first_entry_err
            &&& !failed ==> after.errors.search_errors == before.errors.search_errors
                && after.errors.first_search_err == before.errors.first_search_err
            &&& failed && before.errors.search_errors < usize::MAX
                ==> after.errors.search_errors == before.errors.search_errors + 1
            &&& failed && before.errors.first_search_err is Some ==> after.errors.first_search_err
                == before.errors.first_search_err
            &&& failed && before.errors.first_search_err is None ==> after.errors.first_search_err
                == Some(shown_path(item) + seq![':', ' '] + item.search.failure->Some_0@)
        }),
{
    reveal_strlit(": ");
    assert(": "@ =~= seq![':', ' ']);
    let before = crate::tools::grep::stream_run(items.drop_last(), opts, mode, root);
    let after = crate::tools::grep::stream_run(items, opts, mode, root);
    let item = items.last();
    if after.chunks.len() > before.chunks.len() {
        let chunk = after.chunks.last();
        before.chunks.lemma_flatten_push(chunk);
        assert(after.chunks =~= before.chunks.push(chunk));
        assert(shown_path(item).push('\n') =~= shown_path(item) + seq!['\n']);
    } else {
        assert(before.chunks.flatten() + Seq::<char>::empty() =~= before.chunks.flatten());
        let file = crate::tools::grep::content_run(
            shown_path(item),
            item.search.events@,
            before.count,
            opts.max_results,
            opts.max_bytes,
        );
        assert(mode is Content ==> file.buf =~= Seq::<char>::empty());
    }
}

/// Every other entry adds nothing to what is found: an error is noted, and the rest leaves no
/// trace. A walk that has results enough is over, and stays as it is.
pub proof fn other_entries_add_nothing(
    items: Seq<GrepItem>,
    opts: GrepOptions,
    mode: StreamMode,
    root: Seq<u8>,
)
    requires
        items.len() > 0,
    ensures
        ({
            let before = crate::tools::grep::stream_run(items.drop_last(), opts, mode, root);
            let after = crate::tools::grep::stream_run(items, opts, mode, root);
            let over = before.done || before.count >= opts.max_results;
            &&& over || !is_searched(items.last(), opts.file_extensions@, root) ==> after.count
                == before.count && after.chunks == before.chunks && after.errors.search_errors
                == before.errors.search_errors && after.errors.first_search_err
                == before.errors.first_search_err
            &&& over ==> after.done && after.errors == before.errors
            &&& !over && !is_searched(items.last(), opts.file_extensions@, root) ==> !after.done
        }),
{
}

/// How many matches there are in all of `files`.
pub open spec fn matches_in_all(files: Seq<GrepItem>) -> nat
    decreases files.len(),
{
    if files.len() == 0 {
        0
    } else {
        crate::laws::lines::matches_among(files[0].search.events@) + matches_in_all(files.skip(1))
    }
}

/// One more file adds its matches.
proof fn lemma_matches_in_all(files: Seq<GrepItem>, item: GrepItem)
    ensures
        matches_in_all(files.push(item)) == matches_in_all(files)
            + crate::laws::lines::matches_among(item.search.events@),
    decreases files.len(),
{
    let more = files.push(item);
    if files.len() == 0 {
        assert(more.skip(1) =~= Seq::<GrepItem>::empty());
        assert(matches_in_all(more.skip(1)) == 0);
    } else {
        lemma_matches_in_all(files.skip(1), item);
        assert(more.skip(1) =~= files.skip(1).push(item));
    }
}

/// Whether `shown` are the lines of `files`, file by file, as `content` mode shows them.
pub open spec fn shows_all(shown: Seq<Seq<Seq<char>>>, files: Seq<GrepItem>) -> bool {
    shown.len() == files.len() && forall|i: int|
        0 <= i < shown.len() ==> crate::laws::lines::all_shown(
            #[trigger] shown[i],
            shown_path(files[i]),
            files[i].search.events@,
        )
}

/// A walk in `content` mode that meets no cap shows every line of every file it searches.
proof fn lemma_content_shows_all(items: Seq<GrepItem>, opts: GrepOptions, root: Seq<u8>) -> (shown:
    Seq<Seq<Seq<char>>>)
    requires
        matches_in_all(searched_files(items, opts.file_extensions@, root)) < opts.max_results,
        encode_utf8(
            crate::tools::grep::stream_run(items, opts, StreamMode::Content, root).chunks.flatten(),
        ).len() <= opts.max_bytes,
    ensures
        ({
            let run = crate::tools::grep::stream_run(items, opts, StreamMode::Content, root);
            let files = searched_files(items, opts.file_extensions@, root);
            &&& shows_all(shown, files)
            &&& run.chunks.flatten() == shown.flatten().flatten()
            &&& run.count == matches_in_all(files)
            &&& !run.done
        }),
    decreases items.len(),
{
    let files = searched_files(items, opts.file_extensions@, root);
    let run = crate::tools::grep::stream_run(items, opts, StreamMode::Content, root);
    lemma_filters(items, opts.file_extensions@, root);
    if items.len() == 0 {
        let shown = Seq::<Seq<Seq<char>>>::empty();
        assert(shown.flatten() =~= Seq::<Seq<char>>::empty());
        assert(shown.flatten().flatten() =~= Seq::<char>::empty());
        assert(run.chunks.flatten() =~= Seq::<char>::empty());
        shown
    } else {
        let rest = items.drop_last();
        let item = items.last();
        let before = crate::tools::grep::stream_run(rest, opts, StreamMode::Content, root);
        let some = searched_files(rest, opts.file_extensions@, root);
        if is_searched(item, opts.file_extensions@, root) {
            lemma_matches_in_all(some, item);
        }
        if run.chunks.len() > before.chunks.len() {
            let chunk = run.chunks.last();
            assert(run.chunks =~= before.chunks.push(chunk));
            before.chunks.lemma_flatten_push(chunk);
            text::lemma_byte_len_concat(before.chunks.flatten(), chunk);
        } else {
            assert(run.chunks =~= before.chunks);
        }
        let front = lemma_content_shows_all(rest, opts, root);
        if is_searched(item, opts.file_extensions@, root) {
            a_searched_file_adds_its_own(items, opts, StreamMode::Content, root);
            let events = item.search.events@;
            let path = shown_path(item);
            crate::laws::lines::lemma_matches_among(events);
            let file = crate::tools::grep::content_run(
                path,
                events,
                before.count,
                opts.max_results,
                opts.max_bytes,
            );
            text::lemma_byte_len_concat(before.chunks.flatten(), file.buf);
            let lines = lemma_file_shows_all(
                path,
                events,
                before.count,
                opts.max_results,
                opts.max_bytes,
            );
            let shown = front.push(lines);
            front.lemma_flatten_push(lines);
            vstd::seq_lib::lemma_flatten_concat(front.flatten(), lines);
            assert(shown.flatten() =~= front.flatten() + lines);
            assert forall|i: int| 0 <= i < shown.len() implies crate::laws::lines::all_shown(
                #[trigger] shown[i],
                shown_path(files[i]),
                files[i].search.events@,
            ) by {
                if i < front.len() {
                    assert(crate::laws::lines::all_shown(
                        front[i],
                        shown_path(some[i]),
                        some[i].search.events@,
                    ));
                }
            }
            shown
        } else {
            other_entries_add_nothing(items, opts, StreamMode::Content, root);
            front
        }
    }
}

/// The search of a file that meets no cap shows all its lines.
proof fn lemma_file_shows_all(
    path: Seq<char>,
    events: Seq<SearchEvent>,
    start: usize,
    max_results: usize,
    max_bytes: usize,
) -> (lines: Seq<Seq<char>>)
    requires
        start + crate::laws::lines::matches_among(events) < max_results,
        encode_utf8(
            crate::tools::grep::content_run(path, events, start, max_results, max_bytes).buf,
        ).len() <= max_bytes,
    ensures
        ({
            let run = crate::tools::grep::content_run(path, events, start, max_results, max_bytes);
            &&& crate::laws::lines::all_shown(lines, path, events)
            &&& run.buf == lines.flatten()
            &&& run.count == start + crate::laws::lines::matches_among(events)
            &&& !run.stopped
        }),
    decreases events.len(),
{
    crate::laws::lines::lemma_matches_among(events);
    if events.len() == 0 {
        let lines = Seq::<Seq<char>>::empty();
        assert(lines.flatten() =~= Seq::<char>::empty());
        lines
    } else {
        let before = events.drop_last();
        let run = crate::tools::grep::content_run(path, before, start, max_results, max_bytes);
        let after = crate::tools::grep::content_run(path, events, start, max_results, max_bytes);
        let line = crate::laws::lines::lemma_line(path, events.last());
        text::lemma_byte_len_concat(run.buf, line);
        let front = lemma_file_shows_all(path, before, start, max_results, max_bytes);
        let lines = front.push(line);
        front.lemma_flatten_push(line);
        assert(lines.flatten() =~= front.flatten() + line);
        assert forall|i: int| 0 <= i < lines.len() implies crate::laws::lines::shows(
            #[trigger] lines[i],
            path,
            events[i],
        ) by {
            if i < front.len() {
                assert(crate::laws::lines::shows(front[i], path, before[i]));
            }
        }
        lines
    }
}

/// What a response says about a streamed walk: its text is all that the walk put out, unless that
/// takes more bytes than asked for; then it is cut and marked as cut. It tells how many results
/// there are and how many errors, and the first error there was, those about entries first.
pub open spec fn tells_of(
    response: crate::tools::response::ResponseView,
    run: crate::tools::grep::StreamView,
    max_bytes: usize,
) -> bool {
    let all = run.chunks.flatten();
    &&& response.truncated <==> encode_utf8(all).len() > max_bytes
    &&& !response.truncated ==> response.content == all
    &&& response.truncated && max_bytes == 0 ==> response.content == Seq::<char>::empty()
    &&& response.truncated && max_bytes > 0 ==> exists|k: int| #[trigger]
        crate::laws::text::is_longest_fit(all, k, max_bytes - 1) && response.content == if k > 0
            && all[k - 1] == '\n' {
            all.take(k)
        } else {
            all.take(k) + seq!['\n']
        }
    &&& encode_utf8(response.content).len() <= max_bytes
    &&& response.truncation_reason == if response.truncated {
        Some(seq!['b', 'y', 't', 'e', '_', 'c', 'a', 'p'])
    } else {
        None
    }
    &&& response.match_count == Some(run.count)
    &&& response.entry_error_count == Some(run.errors.entry_errors)
    &&& response.search_error_count == Some(run.errors.search_errors)
    &&& response.first_error == if run.errors.first_entry_err is Some {
        run.errors.first_entry_err
    } else {
        run.errors.first_search_err
    }
}

/// The output mode decides which walk a response tells of, and the response tells all of it.
pub proof fn responses_tell_of_the_walk(
    response: crate::tools::response::ResponseView,
    items: Seq<GrepItem>,
    opts: GrepOptions,
    root: Seq<u8>,
)
    requires
        crate::tools::grep::is_grep_response(response, items, opts, root),
    ensures
        opts.output_mode == OutputMode::Content ==> tells_of(
            response,
            crate::tools::grep::stream_run(items, opts, StreamMode::Content, root),
            opts.max_bytes,
        ),
        opts.output_mode == OutputMode::FilesWithMatches ==> tells_of(
            response,
            crate::tools::grep::stream_run(items, opts, StreamMode::FilesWithMatches, root),
            opts.max_bytes,
        ),
        opts.output_mode == OutputMode::Count ==> crate::tools::grep::is_count_response(
            response,
            items,
            opts,
            root,
        ),
{
    streamed_responses_tell_all(
        crate::tools::grep::stream_run(items, opts, StreamMode::Content, root),
        opts.max_bytes,
    );
    streamed_responses_tell_all(
        crate::tools::grep::stream_run(items, opts, StreamMode::FilesWithMatches, root),
        opts.max_bytes,
    );
}

/// A streamed response tells of the results and errors that it is made of, whatever they are.
pub proof fn streamed_responses_tell_all(run: crate::tools::grep::StreamView, max_bytes: usize)
    ensures
        tells_of(
            crate::tools::grep::streamed_view(run.chunks, run.errors, run.count, max_bytes),
            run,
            max_bytes,
        ),
{
    reveal_strlit("byte_cap");
    assert("byte_cap"@ =~= seq!['b', 'y', 't', 'e', '_', 'c', 'a', 'p']);
    crate::laws::text::joining_is_flattening(run.chunks);
    crate::laws::text::cut_text_is_the_longest_that_fits(run.chunks.flatten(), max_bytes as int);
}

/// Where no cap is met, `content` mode answers with every line that the searches report, in the
/// order of the walk, each as it is shown; and it counts every match. Files that are not searched
/// have no part in it.
pub proof fn content_shows_every_line(
    response: crate::tools::response::ResponseView,
    items: Seq<GrepItem>,
    opts: GrepOptions,
    root: Seq<u8>,
) -> (shown: Seq<Seq<Seq<char>>>)
    requires
        opts.output_mode == OutputMode::Content,
        crate::tools::grep::is_grep_response(response, items, opts, root),
        matches_in_all(searched_files(items, opts.file_extensions@, root)) < opts.max_results,
        !response.truncated,
    ensures
        shows_all(shown, searched_files(items, opts.file_extensions@, root)),
        response.content == shown.flatten().flatten(),
        response.match_count == Some(
            matches_in_all(searched_files(items, opts.file_extensions@, root)) as usize,
        ),
{
    responses_tell_of_the_walk(response, items, opts, root);
    lemma_content_shows_all(items, opts, root)
}

/// `files_with_matches` mode answers with the paths of the first matching files, one per line, and
/// with how many they are.
pub proof fn listings_name_the_first_matching_files(
    response: crate::tools::response::ResponseView,
    items: Seq<GrepItem>,
    opts: GrepOptions,
    root: Seq<u8>,
)
    requires
        opts.output_mode == OutputMode::FilesWithMatches,
        crate::tools::grep::is_grep_response(response, items, opts, root),
    ensures
        ({
            let hits = matching_files(items, opts.file_extensions@, root);
            let n = least(hits.len() as int, opts.max_results as int);
            let listing = hits.take(n).map_values(
                |item: GrepItem| shown_path(item) + seq!['\n'],
            ).flatten();
            &&& response.match_count == Some(n as usize)
            &&& response.truncated <==> encode_utf8(listing).len() > opts.max_bytes
            &&& !response.truncated ==> response.content == listing
        }),
{
    responses_tell_of_the_walk(response, items, opts, root);
    the_first_matching_files_are_listed(items, opts, root);
}

} // verus!
