//! What the walking tools share: how entries are judged and how errors are kept.

use vstd::prelude::*;
use vstd::utf8::*;

use crate::engines;
use crate::paths;
use crate::tools::common::{ErrorState, WalkEntry};
use crate::tools::counts::FileCount;
use crate::tools::options::{FindOptions, GrepOptions, WalkerConfig};
use crate::tools::sinks::MatchSink;

verus! {

/// What becomes of an entry: a walk with results enough ends; a file whose extension was asked for
/// and that lies within the root is searched; what cannot be read or resolved is an error; and the
/// rest is passed over.
pub proof fn entries_are_judged(
    count: usize,
    max_results: usize,
    entry: WalkEntry,
    extensions: Seq<String>,
    root: Seq<u8>,
    resolved: Result<Vec<u8>, String>,
)
    ensures
        ({
            let step = crate::tools::common::entry_step(
                count,
                max_results,
                entry,
                extensions,
                root,
                resolved,
            );
            let asked_for = entry is Found && entry->is_file
                && crate::tools::common::extension_passes(entry->path@, extensions);
            &&& step is Quit <==> count >= max_results
            &&& step is Failed <==> count < max_results && (entry is Failed || (asked_for
                && resolved is Err))
            &&& step is Search <==> count < max_results && asked_for && resolved is Ok
                && paths::is_within(resolved->Ok_0@, root)
        }),
{
}

/// A path may be touched if and only if it resolves, and to a place within the root.
pub proof fn only_what_resolves_inside_is_in_scope(
    root: Seq<u8>,
    resolved: Result<Vec<u8>, String>,
)
    ensures
        crate::tools::common::is_in_scope(root, resolved) <==> resolved is Ok && paths::is_within(
            resolved->Ok_0@,
            root,
        ),
{
}

/// An error is counted with its own kind, and its message stays if it is the first of that kind.
/// The message about a search names the file.
pub proof fn the_first_error_of_each_kind_stays(
    errors: crate::tools::common::ErrorView,
    path: Seq<u8>,
    msg: Seq<char>,
)
    requires
        errors.entry_errors < usize::MAX,
        errors.search_errors < usize::MAX,
    ensures
        ({
            let after = errors.entry_error(msg);
            &&& after.entry_errors == errors.entry_errors + 1
            &&& after.search_errors == errors.search_errors
            &&& after.first_search_err == errors.first_search_err
            &&& errors.first_entry_err is Some ==> after.first_entry_err == errors.first_entry_err
            &&& errors.first_entry_err is None ==> after.first_entry_err == Some(msg)
        }),
        ({
            let after = errors.search_error(path, msg);
            &&& after.search_errors == errors.search_errors + 1
            &&& after.entry_errors == errors.entry_errors
            &&& after.first_entry_err == errors.first_entry_err
            &&& errors.first_search_err is Some ==> after.first_search_err
                == errors.first_search_err
            &&& errors.first_search_err is None ==> after.first_search_err == Some(
                engines::lossy_text(path) + seq![':', ' '] + msg,
            )
        }),
        errors.first_entry_err is Some ==> errors.first() == errors.first_entry_err,
        errors.first_entry_err is None ==> errors.first() == errors.first_search_err,
{
    reveal_strlit(": ");
    assert(": "@ =~= seq![':', ' ']);
}

/// A clean record has no errors and no messages.
pub proof fn records_start_clean()
    ensures
        ({
            let clean = crate::tools::common::ErrorView::empty();
            &&& clean.entry_errors == 0
            &&& clean.search_errors == 0
            &&& clean.first_entry_err is None
            &&& clean.first_search_err is None
        }),
{
}

/// What a record and a report are said to hold is what they hold.
pub proof fn records_are_read_as_they_are(state: ErrorState, files: Seq<FileCount>, i: int)
    requires
        0 <= i < files.len(),
    ensures
        state@.entry_errors == state.entry_errors,
        state@.search_errors == state.search_errors,
        state@.first_entry_err is Some <==> state.first_entry_err is Some,
        state@.first_entry_err is Some ==> state@.first_entry_err->Some_0
            == state.first_entry_err->Some_0@,
        state@.first_search_err is Some <==> state.first_search_err is Some,
        state@.first_search_err is Some ==> state@.first_search_err->Some_0
            == state.first_search_err->Some_0@,
        crate::tools::counts::counts_of(files).len() == files.len(),
        crate::tools::counts::counts_of(files)[i] == (files[i].path@, files[i].count),
{
}

/// A match is shown if and only if the counter had room for it and the text of its file has not
/// outgrown the byte cap.
pub proof fn matches_are_shown_while_there_is_room(sink: MatchSink, prev: usize)
    ensures
        sink.takes(prev) <==> prev < sink.max_results && encode_utf8(sink.buf@).len()
            <= sink.max_bytes,
{
}

/// A walk goes where the options say: into hidden places, past the rules of git, and along symbolic
/// links as asked for. `find` never follows links.
pub proof fn walks_go_where_the_options_say(grep: GrepOptions, find: FindOptions)
    ensures
        grep.wants_hidden() == grep.include_hidden,
        grep.wants_gitignore() == grep.respect_gitignore,
        grep.wants_symlinks() == grep.follow_symlinks,
        find.wants_hidden() == find.include_hidden,
        find.wants_gitignore() == find.respect_gitignore,
        !find.wants_symlinks(),
{
}

} // verus!
