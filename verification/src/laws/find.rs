//! What `find` answers: which files, in what order, and what the pattern is tried on.

use regex::Regex;
use vstd::prelude::*;

use crate::engines;
use crate::laws;
use crate::paths;
use crate::tools::common::WalkEntry;
use crate::tools::find::FindItem;
use crate::tools::options::FindOptions;

verus! {

/// Whether `item` is a file that resolves to a place within `root`.
pub open spec fn is_candidate(item: FindItem, root: Seq<u8>) -> bool {
    &&& item.entry matches WalkEntry::Found { path, is_file }
    &&& is_file
    &&& item.resolved matches Ok(place) && paths::is_within(place@, root)
}

/// Whether the pattern is found where it is to be looked for: in the last component of the path
/// where `match_basename` says so, and else in the path.
pub open spec fn is_named_so(re: Regex, path: Seq<u8>, match_basename: bool) -> bool {
    if match_basename {
        paths::name_of(path) matches Some(name) && engines::regex_finds(
            re,
            engines::lossy_text(name),
        )
    } else {
        engines::regex_finds(re, engines::lossy_text(path))
    }
}

/// The files of a walk that are to be found, in its order.
pub open spec fn files_to_find(
    re: Regex,
    entries: Seq<FindItem>,
    match_basename: bool,
    root: Seq<u8>,
) -> Seq<FindItem> {
    entries.filter(
        |item: FindItem|
            is_candidate(item, root) && is_named_so(re, item.entry->path@, match_basename),
    )
}

/// The walk of a call: over `entries`, with the pattern tried on each.
pub open spec fn walk_of(
    re: Regex,
    entries: Seq<FindItem>,
    opts: FindOptions,
    root: Seq<u8>,
) -> crate::tools::find::FindView {
    crate::tools::find::find_run(
        entries,
        crate::tools::find::hits_of(re, entries, opts.match_basename),
        opts,
        root,
    )
}

/// What is found in the first entries does not depend on those behind them.
proof fn lemma_walk_front(
    entries: Seq<FindItem>,
    some: Seq<bool>,
    more: Seq<bool>,
    opts: FindOptions,
    root: Seq<u8>,
)
    requires
        forall|i: int| 0 <= i < entries.len() ==> some[i] == more[i],
    ensures
        crate::tools::find::find_run(entries, some, opts, root) == crate::tools::find::find_run(
            entries,
            more,
            opts,
            root,
        ),
    decreases entries.len(),
{
    if entries.len() > 0 {
        lemma_walk_front(entries.drop_last(), some, more, opts, root);
        let n = entries.len() - 1;
        assert(some[n] == more[n]);
    }
}

/// One more entry of a walk.
proof fn lemma_walk_last(re: Regex, entries: Seq<FindItem>, opts: FindOptions, root: Seq<u8>)
    requires
        entries.len() > 0,
    ensures
        ({
            let before = walk_of(re, entries.drop_last(), opts, root);
            let hits = crate::tools::find::hits_of(re, entries, opts.match_basename);
            walk_of(re, entries, opts, root) == if before.done {
                before
            } else {
                crate::tools::find::walk_step(
                    before,
                    entries.last(),
                    hits[entries.len() - 1],
                    opts,
                    root,
                )
            }
        }),
{
    let rest = entries.drop_last();
    let some = crate::tools::find::hits_of(re, rest, opts.match_basename);
    let more = crate::tools::find::hits_of(re, entries, opts.match_basename);
    assert forall|i: int| 0 <= i < rest.len() implies some[i] == more[i] by {
        assert(rest[i] == entries[i]);
    }
    lemma_walk_front(rest, some, more, opts, root);
}

/// `find` lists the first files of the walk that lie within the root and in whose name, or path,
/// the pattern is found, as many as were asked for, each by its path on a line of its own; and it
/// counts what it lists.
pub proof fn the_first_files_are_found(
    re: Regex,
    entries: Seq<FindItem>,
    opts: FindOptions,
    root: Seq<u8>,
)
    ensures
        ({
            let run = walk_of(re, entries, opts, root);
            let found = files_to_find(re, entries, opts.match_basename, root);
            let n = laws::grep::least(found.len() as int, opts.max_results as int);
            &&& run.count == n
            &&& run.lines == found.take(n).map_values(
                |item: FindItem| engines::lossy_text(item.entry->path@) + seq!['\n'],
            )
            &&& run.done ==> n == opts.max_results
        }),
    decreases entries.len(),
{
    reveal(Seq::filter);
    let line = |item: FindItem| engines::lossy_text(item.entry->path@) + seq!['\n'];
    let run = walk_of(re, entries, opts, root);
    let found = files_to_find(re, entries, opts.match_basename, root);
    let n = laws::grep::least(found.len() as int, opts.max_results as int);
    if entries.len() > 0 {
        let rest = entries.drop_last();
        let item = entries.last();
        the_first_files_are_found(re, rest, opts, root);
        lemma_walk_last(re, entries, opts, root);
        let before = files_to_find(re, rest, opts.match_basename, root);
        let m = laws::grep::least(before.len() as int, opts.max_results as int);
        if n == m {
            assert(found.take(n) =~= before.take(m));
        } else {
            assert(found =~= before.push(item));
            assert(found.take(n) =~= before.take(m).push(item));
            assert(found.take(n).map_values(line) =~= before.take(m).map_values(line).push(
                line(item),
            ));
            assert(engines::lossy_text(item.entry->path@).push('\n') =~= line(item));
        }
    }
    assert(run.lines =~= found.take(n).map_values(line));
}

/// With `match_basename` set, a file is found if and only if the pattern is found in the last
/// component of its path: the directories it lies in have no say. Without it, the pattern is tried
/// on the whole path.
pub proof fn only_the_last_component_is_tried(
    re: Regex,
    entries: Seq<FindItem>,
    i: int,
    dir: Seq<u8>,
    name: Seq<u8>,
)
    requires
        0 <= i < entries.len(),
        entries[i].entry is Found,
        entries[i].entry->path@ == dir + seq![47u8] + name,
        laws::paths::is_component(name),
        name != seq![46u8, 46u8],
    ensures
        crate::tools::find::hits_of(re, entries, true)[i] <==> engines::regex_finds(
            re,
            engines::lossy_text(name),
        ),
        crate::tools::find::hits_of(re, entries, false)[i] <==> engines::regex_finds(
            re,
            engines::lossy_text(dir + seq![47u8] + name),
        ),
{
    laws::paths::names_come_last(dir, name);
}

/// Every file that is listed for a pattern on names has the pattern in the last component of its
/// path, lies within the root, and is a file.
pub proof fn listed_files_are_named_so(
    re: Regex,
    entries: Seq<FindItem>,
    opts: FindOptions,
    root: Seq<u8>,
    k: int,
) -> (i: int)
    requires
        0 <= k < walk_of(re, entries, opts, root).lines.len(),
    ensures
        0 <= i < entries.len(),
        is_candidate(entries[i], root),
        is_named_so(re, entries[i].entry->path@, opts.match_basename),
        walk_of(re, entries, opts, root).lines[k] == engines::lossy_text(entries[i].entry->path@)
            + seq!['\n'],
{
    the_first_files_are_found(re, entries, opts, root);
    let wanted = |item: FindItem|
        is_candidate(item, root) && is_named_so(re, item.entry->path@, opts.match_basename);
    let found = files_to_find(re, entries, opts.match_basename, root);
    assert(found.contains(found[k]));
    entries.lemma_filter_contains_rev(wanted, found[k]);
    entries.lemma_filter_pred(wanted, k);
    choose|i: int| 0 <= i < entries.len() && entries[i] == found[k]
}

/// Unless there are results enough, no file that is to be found is left out.
pub proof fn no_file_named_so_is_missed(
    re: Regex,
    entries: Seq<FindItem>,
    opts: FindOptions,
    root: Seq<u8>,
    i: int,
)
    requires
        0 <= i < entries.len(),
        is_candidate(entries[i], root),
        is_named_so(re, entries[i].entry->path@, opts.match_basename),
        walk_of(re, entries, opts, root).count < opts.max_results,
    ensures
        walk_of(re, entries, opts, root).lines.contains(
            engines::lossy_text(entries[i].entry->path@) + seq!['\n'],
        ),
{
    the_first_files_are_found(re, entries, opts, root);
    let wanted = |item: FindItem|
        is_candidate(item, root) && is_named_so(re, item.entry->path@, opts.match_basename);
    let line = |item: FindItem| engines::lossy_text(item.entry->path@) + seq!['\n'];
    let found = files_to_find(re, entries, opts.match_basename, root);
    entries.lemma_filter_contains(wanted, i);
    let k = choose|k: int| 0 <= k < found.len() && found[k] == entries[i];
    assert(found.take(found.len() as int) =~= found);
    assert(walk_of(re, entries, opts, root).lines[k] == line(entries[i]));
}

/// Whether two walks meet files of the same names, and lie within their root alike, whatever the
/// directories.
pub open spec fn same_names(
    a: Seq<FindItem>,
    b: Seq<FindItem>,
    a_root: Seq<u8>,
    b_root: Seq<u8>,
) -> bool {
    a.len() == b.len() && forall|i: int|
        #![trigger a[i]]
        #![trigger b[i]]
        0 <= i < a.len() ==> a[i].entry is Found && b[i].entry is Found && paths::name_of(
            a[i].entry->path@,
        ) == paths::name_of(b[i].entry->path@) && is_candidate(a[i], a_root) == is_candidate(
            b[i],
            b_root,
        )
}

/// With `match_basename` set, the directories that files lie in make no difference to whether they
/// are found: two walks over files of the same names find files at the same places.
pub proof fn directories_make_no_difference(
    re: Regex,
    a: Seq<FindItem>,
    b: Seq<FindItem>,
    opts: FindOptions,
    a_root: Seq<u8>,
    b_root: Seq<u8>,
)
    requires
        opts.match_basename,
        same_names(a, b, a_root, b_root),
    ensures
        crate::tools::find::hits_of(re, a, true) == crate::tools::find::hits_of(re, b, true),
        walk_of(re, a, opts, a_root).count == walk_of(re, b, opts, b_root).count,
        forall|n: int|
            0 <= n <= a.len() ==> walk_of(re, #[trigger] a.take(n), opts, a_root).count == walk_of(
                re,
                b.take(n),
                opts,
                b_root,
            ).count,
    decreases a.len(),
{
    reveal(Seq::filter);
    let x = crate::tools::find::hits_of(re, a, true);
    let y = crate::tools::find::hits_of(re, b, true);
    assert forall|i: int| 0 <= i < a.len() implies x[i] == y[i] by {
        assert(a[i].entry is Found && b[i].entry is Found);
    }
    assert(x =~= y);
    if a.len() > 0 {
        let front_a = a.drop_last();
        let front_b = b.drop_last();
        assert(same_names(front_a, front_b, a_root, b_root)) by {
            assert forall|i: int|
                #![trigger front_a[i]]
                #![trigger front_b[i]]
                0 <= i < front_a.len() implies front_a[i].entry is Found && front_b[i].entry is Found
                && paths::name_of(front_a[i].entry->path@) == paths::name_of(
                front_b[i].entry->path@,
            ) && is_candidate(front_a[i], a_root) == is_candidate(front_b[i], b_root) by {
                assert(front_a[i] == a[i] && front_b[i] == b[i]);
            }
        }
        directories_make_no_difference(re, front_a, front_b, opts, a_root, b_root);
        let n = a.len() - 1;
        assert(a[n] == a.last() && b[n] == b.last());
        assert(files_to_find(re, a, true, a_root).len() == files_to_find(re, b, true, b_root).len())
            by {
            lemma_same_number(re, a, b, a_root, b_root);
        }
        the_first_files_are_found(re, a, opts, a_root);
        the_first_files_are_found(re, b, opts, b_root);
        assert forall|k: int| 0 <= k <= a.len() implies walk_of(
            re,
            #[trigger] a.take(k),
            opts,
            a_root,
        ).count == walk_of(re, b.take(k), opts, b_root).count by {
            if k < a.len() {
                assert(a.take(k) =~= front_a.take(k));
                assert(b.take(k) =~= front_b.take(k));
            } else {
                assert(a.take(k) =~= a);
                assert(b.take(k) =~= b);
            }
        }
    } else {
        assert(a =~= b);
        assert(a.take(0) =~= a);
        assert(b.take(0) =~= b);
    }
}

/// Two walks over files of the same names have as many files to find.
proof fn lemma_same_number(
    re: Regex,
    a: Seq<FindItem>,
    b: Seq<FindItem>,
    a_root: Seq<u8>,
    b_root: Seq<u8>,
)
    requires
        same_names(a, b, a_root, b_root),
    ensures
        files_to_find(re, a, true, a_root).len() == files_to_find(re, b, true, b_root).len(),
    decreases a.len(),
{
    reveal(Seq::filter);
    if a.len() > 0 {
        let front_a = a.drop_last();
        let front_b = b.drop_last();
        assert forall|i: int|
            #![trigger front_a[i]]
            #![trigger front_b[i]]
            0 <= i < front_a.len() implies front_a[i].entry is Found && front_b[i].entry is Found
            && paths::name_of(front_a[i].entry->path@) == paths::name_of(front_b[i].entry->path@)
            && is_candidate(front_a[i], a_root) == is_candidate(front_b[i], b_root) by {
            assert(front_a[i] == a[i] && front_b[i] == b[i]);
        }
        lemma_same_number(re, front_a, front_b, a_root, b_root);
        let n = a.len() - 1;
        assert(a[n] == a.last() && b[n] == b.last());
    }
}

/// Whether `item` stands for an error: an entry that could not be read, or a file with something to
/// try the pattern on whose path could not be resolved.
pub open spec fn is_unreadable(item: FindItem, match_basename: bool) -> bool {
    match item.entry {
        WalkEntry::Failed(_) => true,
        WalkEntry::Found { path, is_file } => is_file && item.resolved is Err && (match_basename
            ==> paths::name_of(path@) is Some),
    }
}

/// What is said of such an item: the error, behind the path where there is one.
pub open spec fn complaint(item: FindItem) -> Seq<char> {
    match item.entry {
        WalkEntry::Failed(msg) => msg@,
        WalkEntry::Found { path, .. } => engines::lossy_text(path@) + seq![':', ' ']
            + item.resolved->Err_0@,
    }
}

/// Errors on the way are counted, each once, and the first of them is kept; none ends the walk.
pub proof fn unreadable_entries_are_counted(
    re: Regex,
    entries: Seq<FindItem>,
    opts: FindOptions,
    root: Seq<u8>,
)
    requires
        entries.len() <= usize::MAX,
    ensures
        ({
            let run = walk_of(re, entries, opts, root);
            let failed = entries.filter(
                |item: FindItem| is_unreadable(item, opts.match_basename),
            );
            &&& failed.len() <= entries.len()
            &&& !run.done ==> run.errors.entry_errors == failed.len() && run.errors.first_entry_err
                == laws::grep::first_of(failed.map_values(|item: FindItem| complaint(item)))
        }),
    decreases entries.len(),
{
    reveal(Seq::filter);
    reveal_strlit(": ");
    assert(": "@ =~= seq![':', ' ']);
    if entries.len() > 0 {
        let bad = |item: FindItem| is_unreadable(item, opts.match_basename);
        let say = |item: FindItem| complaint(item);
        let rest = entries.drop_last();
        unreadable_entries_are_counted(re, rest, opts, root);
        lemma_walk_last(re, entries, opts, root);
        let before = rest.filter(bad);
        let failed = entries.filter(bad);
        if is_unreadable(entries.last(), opts.match_basename) {
            assert(failed =~= before.push(entries.last()));
            if before.len() > 0 {
                assert(failed.map_values(say)[0] == before.map_values(say)[0]);
            }
        } else {
            assert(failed =~= before);
        }
    }
}

/// A response holds the lines it is made of, one behind the other and never cut, how many results
/// there are, how many entries could not be read, and the first error there was. It reports no
/// failed searches, as nothing is searched.
pub proof fn responses_hold_their_lines(
    lines: Seq<Seq<char>>,
    errors: crate::tools::common::ErrorView,
    count: usize,
)
    ensures
        ({
            let response = crate::tools::find::find_view(lines, errors, count);
            &&& response.content == lines.flatten()
            &&& response.match_count == Some(count)
            &&& !response.truncated
            &&& response.truncation_reason is None
            &&& response.entry_error_count == Some(errors.entry_errors)
            &&& response.search_error_count == Some(0usize)
            &&& response.first_error == errors.first_entry_err
        }),
{
    laws::text::joining_is_flattening(lines);
}

/// The answer to a call: the lines of the files that are found, one behind the other and never cut,
/// how many they are, how many entries could not be read, and the first error there was.
pub proof fn answers_tell_of_the_walk(
    re: Regex,
    entries: Seq<FindItem>,
    opts: FindOptions,
    root: Seq<u8>,
)
    ensures
        ({
            let run = walk_of(re, entries, opts, root);
            let response = crate::tools::find::find_view(run.lines, run.errors, run.count);
            let found = files_to_find(re, entries, opts.match_basename, root);
            let n = laws::grep::least(found.len() as int, opts.max_results as int);
            &&& response.content == found.take(n).map_values(
                |item: FindItem| engines::lossy_text(item.entry->path@) + seq!['\n'],
            ).flatten()
            &&& response.match_count == Some(n as usize)
            &&& !response.truncated
            &&& response.truncation_reason is None
            &&& response.entry_error_count == Some(run.errors.entry_errors)
            &&& response.search_error_count == Some(0usize)
            &&& response.first_error == run.errors.first_entry_err
        }),
{
    let run = walk_of(re, entries, opts, root);
    the_first_files_are_found(re, entries, opts, root);
    responses_hold_their_lines(run.lines, run.errors, run.count);
}

/// What becomes of an entry: a walk with results enough ends; a file within the root is tried, on
/// the text that the pattern is for; what cannot be read or resolved is an error; and the rest is
/// passed over.
pub proof fn entries_are_judged(
    count: usize,
    max_results: usize,
    item: FindItem,
    match_basename: bool,
    root: Seq<u8>,
)
    ensures
        ({
            let step = crate::tools::find::find_step(
                count,
                max_results,
                item.entry,
                match_basename,
                root,
                item.resolved,
            );
            let tried = if match_basename {
                engines::lossy_text(paths::name_of(item.entry->path@)->Some_0)
            } else {
                engines::lossy_text(item.entry->path@)
            };
            let nameless = match_basename && paths::name_of(item.entry->path@) is None;
            &&& step is Quit <==> count >= max_results
            &&& step is Failed <==> count < max_results && is_unreadable(item, match_basename)
            &&& step is Test <==> count < max_results && is_candidate(item, root) && !nameless
            &&& step matches crate::tools::find::FindStepView::Test(text) ==> text == tried
        }),
{
}

} // verus!
