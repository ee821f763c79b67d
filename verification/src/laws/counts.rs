//! What `count` mode answers: the matches of each file, added up by path.

use vstd::prelude::*;
use vstd::utf8::*;

use crate::laws;
use crate::ordering;
use crate::text;
use crate::tools::counts;
use crate::tools::grep::GrepItem;
use crate::tools::options::{GrepOptions, OutputMode};

verus! {

/// What `files` report for `path`, added up.
pub open spec fn sum_at(files: Seq<(Seq<char>, usize)>, path: Seq<char>) -> nat
    decreases files.len(),
{
    if files.len() == 0 {
        0
    } else if files[0].0 == path {
        files[0].1 as nat + sum_at(files.skip(1), path)
    } else {
        sum_at(files.skip(1), path)
    }
}

/// What `files` report, added up.
pub open spec fn sum_of(files: Seq<(Seq<char>, usize)>) -> nat
    decreases files.len(),
{
    if files.len() == 0 {
        0
    } else {
        files[0].1 as nat + sum_of(files.skip(1))
    }
}

/// One more report adds its own.
proof fn lemma_sum_push(files: Seq<(Seq<char>, usize)>, report: (Seq<char>, usize), path: Seq<char>)
    ensures
        sum_at(files.push(report), path) == sum_at(files, path) + if report.0 == path {
            report.1 as nat
        } else {
            0
        },
        sum_of(files.push(report)) == sum_of(files) + report.1,
    decreases files.len(),
{
    let more = files.push(report);
    if files.len() == 0 {
        assert(more.skip(1) =~= Seq::<(Seq<char>, usize)>::empty());
        assert(sum_at(more.skip(1), path) == 0);
        assert(sum_of(more.skip(1)) == 0);
    } else {
        lemma_sum_push(files.skip(1), report, path);
        assert(more.skip(1) =~= files.skip(1).push(report));
    }
}

/// Adding up from either end gives the same.
proof fn lemma_sums(files: Seq<(Seq<char>, usize)>, path: Seq<char>)
    ensures
        counts::hits_at(files, path) == sum_at(files, path),
        counts::hits_total(files) == sum_of(files),
    decreases files.len(),
{
    if files.len() > 0 {
        lemma_sums(files.drop_last(), path);
        lemma_sum_push(files.drop_last(), files.last(), path);
        assert(files.drop_last().push(files.last()) =~= files);
    }
}

/// A tally holds each path that is reported, once and no other, with all that is reported for it,
/// in the order of the bytes of the paths.
pub proof fn tallies_add_up(
    files: Seq<(Seq<char>, usize)>,
    tally: Seq<(Seq<char>, usize)>,
    path: Seq<char>,
)
    requires
        counts::is_tally(files, tally),
    ensures
        (exists|i: int| 0 <= i < tally.len() && (#[trigger] tally[i]).0 == path) <==> (exists|
            k: int,
        |
            0 <= k < files.len() && (#[trigger] files[k]).0 == path),
        forall|i: int, j: int|
            0 <= i < j < tally.len() ==> (#[trigger] tally[i]).0 != (#[trigger] tally[j]).0
                && ordering::bytes_le(encode_utf8(tally[i].0), encode_utf8(tally[j].0)),
        forall|i: int|
            0 <= i < tally.len() && (#[trigger] tally[i]).0 == path && sum_at(files, path)
                <= usize::MAX ==> tally[i].1 == sum_at(files, path),
        sum_of(files) <= usize::MAX ==> counts::as_counter(counts::hits_total(files)) == sum_of(
            files,
        ),
{
    lemma_sums(files, path);
    counts::lemma_as_counter_add(counts::hits_at(files, path), 0);
    counts::lemma_as_counter_add(counts::hits_total(files), 0);
    assert(counts::mentions(tally, path) <==> exists|i: int|
        0 <= i < tally.len() && (#[trigger] tally[i]).0 == path);
    assert(counts::mentions(files, path) <==> exists|k: int|
        0 <= k < files.len() && (#[trigger] files[k]).0 == path);
}

/// A path is shown with its matches as the path, a colon and a blank, a numeral that reads back as
/// their number, and a newline.
pub proof fn counts_are_shown_as_numbers(path: Seq<char>, count: usize)
    ensures
        exists|numeral: Seq<char>| #[trigger]
            laws::text::is_numeral(numeral) && laws::text::reads_as(numeral) == count && (
            numeral.len() > 1 ==> numeral[0] != '0') && counts::count_line(path, count) == path
                + seq![':', ' '] + numeral + seq!['\n'],
{
    reveal_strlit(": ");
    assert(": "@ =~= seq![':', ' ']);
    let numeral = text::decimal(count as nat);
    laws::text::numerals_read_back(count as nat);
    assert(laws::text::is_numeral(numeral));
    assert(counts::count_line(path, count) =~= path + seq![':', ' '] + numeral + seq!['\n']);
}

/// The text of a count is made of the lines of the tally, from its start: as many as were asked
/// for, and of these as many as fit. Where something is missing it says so and why, and it tells
/// the number of matches and of errors, and the first error there was.
pub proof fn counts_show_the_first_lines(
    tally: Seq<(Seq<char>, usize)>,
    total: usize,
    errors: crate::tools::common::ErrorView,
    max_results: usize,
    max_bytes: usize,
) -> (n: int)
    ensures
        ({
            let response = counts::count_response(tally, total, errors, max_results, max_bytes);
            let wanted = laws::grep::least(tally.len() as int, max_results as int);
            let lines = tally.take(wanted).map_values(
                |entry: (Seq<char>, usize)| counts::count_line(entry.0, entry.1),
            );
            let too_long = encode_utf8(lines.flatten()).len() > max_bytes;
            &&& laws::text::is_most_lines(lines, n, max_bytes as int)
            &&& response.content == lines.take(n).flatten()
            &&& !too_long ==> response.content == lines.flatten()
            &&& response.truncated <==> (tally.len() > max_results || too_long)
            &&& response.truncation_reason == if tally.len() > max_results {
                Some("max_results"@)
            } else if too_long {
                Some("byte_cap"@)
            } else {
                None
            }
            &&& response.match_count == Some(total)
            &&& response.entry_error_count == Some(errors.entry_errors)
            &&& response.search_error_count == Some(errors.search_errors)
            &&& response.first_error == if errors.first_entry_err is Some {
                errors.first_entry_err
            } else {
                errors.first_search_err
            }
        }),
{
    let wanted = laws::grep::least(tally.len() as int, max_results as int);
    let lines = tally.take(wanted).map_values(
        |entry: (Seq<char>, usize)| counts::count_line(entry.0, entry.1),
    );
    assert(counts::at_most(tally, max_results) =~= tally.take(wanted));
    assert(counts::count_lines(counts::at_most(tally, max_results)) =~= lines);
    laws::text::joining_is_flattening(lines);
    let n = laws::text::as_many_lines_as_fit(lines, max_bytes as int);
    assert(lines.take(lines.len() as int) =~= lines);
    if encode_utf8(lines.flatten()).len() <= max_bytes {
        lemma_all_fit(lines, n, max_bytes as int);
    }
    n
}

/// Where all lines fit, none is left out.
proof fn lemma_all_fit(lines: Seq<Seq<char>>, n: int, cap: int)
    requires
        laws::text::is_most_lines(lines, n, cap),
        encode_utf8(lines.flatten()).len() <= cap,
    ensures
        n == lines.len(),
{
    if n < lines.len() {
        assert(lines =~= lines.take(n + 1) + lines.skip(n + 1));
        vstd::seq_lib::lemma_flatten_concat(lines.take(n + 1), lines.skip(n + 1));
        text::lemma_byte_len_concat(lines.take(n + 1).flatten(), lines.skip(n + 1).flatten());
    }
}

/// The matches of those of `files` that are shown as `path`, added up.
pub open spec fn matches_at(files: Seq<GrepItem>, path: Seq<char>) -> nat
    decreases files.len(),
{
    if files.len() == 0 {
        0
    } else {
        matches_at(files.skip(1), path) + if laws::grep::shown_path(files[0]) == path {
            laws::lines::matches_among(files[0].search.events@)
        } else {
            0
        }
    }
}

/// What is reported for files is their matches.
proof fn lemma_reports(reports: Seq<(Seq<char>, usize)>, files: Seq<GrepItem>, path: Seq<char>)
    requires
        reports.len() == files.len(),
        forall|k: int|
            0 <= k < files.len() ==> (#[trigger] reports[k]).0 == laws::grep::shown_path(files[k])
                && reports[k].1 == laws::lines::matches_among(files[k].search.events@),
    ensures
        sum_at(reports, path) == matches_at(files, path),
        sum_of(reports) == laws::grep::matches_in_all(files),
    decreases files.len(),
{
    if files.len() > 0 {
        let r = reports.skip(1);
        let f = files.skip(1);
        assert(reports[0].0 == laws::grep::shown_path(files[0]));
        assert forall|k: int| 0 <= k < f.len() implies (#[trigger] r[k]).0
            == laws::grep::shown_path(f[k]) && r[k].1 == laws::lines::matches_among(
            f[k].search.events@,
        ) by {
            assert(reports[k + 1].0 == laws::grep::shown_path(files[k + 1]));
        }
        lemma_reports(r, f, path);
    }
}

/// Whether a file among `files` is shown as `path`.
pub open spec fn is_path_among(files: Seq<GrepItem>, path: Seq<char>) -> bool {
    exists|k: int| 0 <= k < files.len() && #[trigger] laws::grep::shown_path(files[k]) == path
}

/// Whether `path` is counted in `tally`.
pub open spec fn is_counted(tally: Seq<(Seq<char>, usize)>, path: Seq<char>) -> bool {
    exists|i: int| 0 <= i < tally.len() && (#[trigger] tally[i]).0 == path
}

/// A tally of what is reported for `files` holds their paths and their matches.
proof fn lemma_tally_of(
    reports: Seq<(Seq<char>, usize)>,
    files: Seq<GrepItem>,
    tally: Seq<(Seq<char>, usize)>,
    path: Seq<char>,
)
    requires
        reports.len() == files.len(),
        forall|k: int|
            0 <= k < files.len() ==> (#[trigger] reports[k]).0 == laws::grep::shown_path(files[k])
                && reports[k].1 == laws::lines::matches_among(files[k].search.events@),
        counts::is_tally(reports, tally),
    ensures
        is_counted(tally, path) <==> is_path_among(files, path),
        forall|i: int|
            0 <= i < tally.len() && (#[trigger] tally[i]).0 == path && matches_at(files, path)
                <= usize::MAX ==> tally[i].1 == matches_at(files, path),
{
    tallies_add_up(reports, tally, path);
    lemma_reports(reports, files, path);
    if is_counted(tally, path) {
        let k = choose|k: int| 0 <= k < reports.len() && (#[trigger] reports[k]).0 == path;
        assert(laws::grep::shown_path(files[k]) == path);
    }
    if is_path_among(files, path) {
        let k = choose|k: int|
            0 <= k < files.len() && #[trigger] laws::grep::shown_path(files[k]) == path;
        assert(reports[k].0 == path);
    }
}

/// The answer of `count` mode to a call, from the files of the walk: with `hits` the first files
/// that are searched and have a match, each path of these is counted once, with all matches of
/// the files shown under it, and no other path is; and the paths are in the order of their bytes.
/// The number of matches is that of all these files.
pub proof fn counts_are_those_of_matching_files(
    response: crate::tools::response::ResponseView,
    items: Seq<GrepItem>,
    opts: GrepOptions,
    root: Seq<u8>,
) -> (tally: Seq<(Seq<char>, usize)>)
    requires
        opts.output_mode == OutputMode::Count,
        crate::tools::grep::is_grep_response(response, items, opts, root),
    ensures
        ({
            let all = laws::grep::matching_files(items, opts.file_extensions@, root);
            let hits = all.take(laws::grep::least(all.len() as int, opts.max_results as int));
            let errors = crate::tools::grep::count_run(items, opts, root).errors;
            let total = laws::grep::matches_in_all(hits);
            &&& forall|path: Seq<char>|
                is_path_among(hits, path) <==> #[trigger] is_counted(tally, path)
            &&& forall|i: int, j: int|
                0 <= i < j < tally.len() ==> (#[trigger] tally[i]).0 != (#[trigger] tally[j]).0
                    && ordering::bytes_le(encode_utf8(tally[i].0), encode_utf8(tally[j].0))
            &&& forall|i: int|
                0 <= i < tally.len() && matches_at(hits, (#[trigger] tally[i]).0) <= usize::MAX
                    ==> tally[i].1 == matches_at(hits, tally[i].0)
            &&& response == counts::count_response(
                tally,
                counts::as_counter(total),
                errors,
                opts.max_results,
                opts.max_bytes,
            )
            &&& total <= usize::MAX ==> response.match_count == Some(total as usize)
        }),
{
    let run = crate::tools::grep::count_run(items, opts, root);
    let all = laws::grep::matching_files(items, opts.file_extensions@, root);
    let hits = all.take(laws::grep::least(all.len() as int, opts.max_results as int));
    laws::grep::the_first_matching_files_are_counted(items, opts, root);
    let tally = choose|tally: Seq<(Seq<char>, usize)>| #[trigger]
        counts::is_tally(run.files, tally) && response == counts::count_response(
            tally,
            counts::as_counter(counts::hits_total(run.files)),
            run.errors,
            opts.max_results,
            opts.max_bytes,
        );
    assert forall|k: int| 0 <= k < hits.len() implies (#[trigger] run.files[k]).0
        == laws::grep::shown_path(hits[k]) && run.files[k].1 == laws::lines::matches_among(
        hits[k].search.events@,
    ) by {
        assert(hits[k] == all[k]);
    }
    assert forall|path: Seq<char>| is_path_among(hits, path) <==> #[trigger] is_counted(
        tally,
        path,
    ) by {
        lemma_tally_of(run.files, hits, tally, path);
    }
    assert forall|i: int|
        0 <= i < tally.len() && matches_at(hits, (#[trigger] tally[i]).0)
            <= usize::MAX implies tally[i].1 == matches_at(hits, tally[i].0) by {
        lemma_tally_of(run.files, hits, tally, tally[i].0);
    }
    tallies_add_up(run.files, tally, Seq::<char>::empty());
    lemma_reports(run.files, hits, Seq::<char>::empty());
    lemma_sums(run.files, Seq::<char>::empty());
    tally
}

} // verus!
