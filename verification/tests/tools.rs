//! The tools on values written down here: pages of files, streamed and counted searches, finds.

use code_mcp::error::AppError;
use code_mcp::tools::cat::{cat, Cap, CatReader};
use code_mcp::tools::common::{
    drain_capped, extension_matches, in_scope, judge_entry, wants_more, EntryStep, ErrorState,
    WalkEntry,
};
use code_mcp::tools::counts::{finish_count, tally, FileCount};
use code_mcp::tools::find::{find, find_among, find_hit, judge_find_entry, FindItem, FindStep};
use code_mcp::tools::grep::{
    file_count_of, grep, streamed_response, FileSearch, GrepItem, SearchEvent,
};
use code_mcp::tools::options::{FindOptions, GrepOptions, OutputMode};
use code_mcp::tools::response::{call_result, ToolResponse};
use code_mcp::tools::sinks::{CountSink, FileMatchSink, MatchSink};
use code_mcp::tools::{DEFAULT_MAX_BYTES, DEFAULT_MAX_LINES};

fn lines(text: &str) -> Result<Vec<Result<String, String>>, String> {
    Ok(text.split_inclusive('\n').map(|l| Ok(l.to_string())).collect())
}

fn page(text: &str, offset: usize, max_lines: usize, max_bytes: usize) -> ToolResponse {
    cat(true, &lines(text), offset, max_lines, max_bytes).expect("a page")
}

const SEVEN: &str = "L1\nL2\nL3\nL4\nL5\nL6\nL7\n";

fn check_line_window() {
    let res = page(SEVEN, 2, 3, DEFAULT_MAX_BYTES);
    assert!(res.content.starts_with("L3\nL4\nL5\n"), "got {:?}", res.content);
    assert!(res.truncated, "expected truncated=true");
    assert_eq!(res.truncation_reason, Some("line_cap".to_string()));

    let res = page(SEVEN, 4, 3, DEFAULT_MAX_BYTES);
    assert_eq!(res.content, "L5\nL6\nL7\n", "got {:?}", res.content);
    assert!(!res.truncated);
}

#[test]
fn tools_cat_offset_and_line_window() {
    check_line_window();
}

#[test]
fn cat_cat_offset_and_line_window() {
    check_line_window();
}

fn check_byte_cap() {
    let body = "abcdefghijklmnopqrstuvwxyz\n".repeat(20);
    let res = page(&body, 0, DEFAULT_MAX_LINES, 50);
    assert!(res.truncated, "expected truncated=true, got {:?}", res);
    assert_eq!(res.truncation_reason, Some("byte_cap".to_string()));
    assert!(
        res.content.len() < body.len(),
        "expected truncation, got len {}",
        res.content.len()
    );
    assert_eq!(res.content, "abcdefghijklmnopqrstuvwxyz\n");
}

#[test]
fn tools_cat_byte_cap_truncates_with_marker() {
    check_byte_cap();
}

#[test]
fn cat_cat_byte_cap_truncates_with_marker() {
    check_byte_cap();
}

fn check_directory() {
    match cat(false, &lines(""), 0, DEFAULT_MAX_LINES, DEFAULT_MAX_BYTES) {
        Err(AppError::InvalidRequest(msg)) => {
            assert_eq!(msg, "Target is not a file or does not exist")
        }
        Err(other) => panic!("expected InvalidRequest, got {:?}", other),
        Ok(s) => panic!("expected error, got Ok({:?})", s),
    }
}

#[test]
fn tools_cat_errors_when_path_is_directory() {
    check_directory();
}

#[test]
fn cat_cat_errors_when_path_is_directory() {
    check_directory();
}

#[test]
fn cat_behind_the_end_is_empty() {
    let res = page(SEVEN, 7, 3, 100);
    assert_eq!((res.content.as_str(), res.truncated), ("", false));
    let res = page(SEVEN, 100, 3, 100);
    assert_eq!((res.content.as_str(), res.truncated), ("", false));
    assert_eq!(res.match_count, None);
    assert_eq!(res.entry_error_count, None);
}

#[test]
fn cat_without_lines_is_a_bare_newline() {
    let res = page(SEVEN, 0, 0, 100);
    assert_eq!(res.content, "\n");
    assert_eq!(res.truncation_reason.as_deref(), Some("line_cap"));
}

#[test]
fn cat_cuts_between_lines() {
    let res = page("ab\naé€\n", 0, 10, 9);
    assert_eq!(res.content, "ab\n");
    assert_eq!(res.truncation_reason.as_deref(), Some("byte_cap"));
    let res = page("ab\naé€\n", 0, 10, 10);
    assert_eq!(res.content, "ab\naé€\n");
    assert!(!res.truncated);
    let res = page("aé€\n", 0, 10, 5);
    assert_eq!(res.content, "");
    assert!(res.truncated);
}

#[test]
fn cat_never_passes_its_cap() {
    for max_bytes in 0..30 {
        for max_lines in 0..9 {
            let res = page(SEVEN, 0, max_lines, max_bytes);
            assert!(res.content.len() <= max_bytes, "{} {}", max_lines, max_bytes);
        }
    }
    assert_eq!(page(SEVEN, 0, 0, 0).content, "");
}

#[test]
fn cat_reports_failures_before_the_page_is_settled() {
    let broken: Result<Vec<Result<String, String>>, String> = Ok(vec![
        Ok("a\n".to_string()),
        Ok("b\n".to_string()),
        Err("bad byte".to_string()),
        Ok("c\n".to_string()),
    ]);
    match cat(true, &broken, 0, 10, 100) {
        Err(AppError::Io(e)) => assert_eq!(e, "bad byte"),
        other => panic!("expected Io, got {:?}", other),
    }
    let res = cat(true, &broken, 0, 1, 100).expect("settled by then");
    assert_eq!(res.content, "a\n");
    match cat(true, &broken, 0, 2, 100) {
        Err(AppError::Io(_)) => {}
        other => panic!("expected Io, got {:?}", other),
    }
    match cat(true, &Err("locked".to_string()), 0, 1, 1) {
        Err(AppError::Io(e)) => assert_eq!(e, "locked"),
        other => panic!("expected Io, got {:?}", other),
    }
}

#[test]
fn cat_pages_make_the_file() {
    let mut all = String::new();
    let mut offset = 0;
    loop {
        let res = page(SEVEN, offset, 3, 1000);
        all.push_str(&res.content);
        if !res.truncated {
            break;
        }
        offset += 3;
    }
    assert_eq!(all, SEVEN);
}

#[test]
fn cat_reader_says_when_it_has_enough() {
    let mut reader = CatReader::new(1, 1, 100);
    assert!(reader.feed("a\n"));
    assert!(reader.feed("b\n"));
    assert!(!reader.feed("c\n"));
    assert!(!reader.feed("d\n"));
    assert_eq!(reader.cap, Some(Cap::Lines));
    assert_eq!(reader.finish().content, "b\n");
}

fn file(path: &str) -> WalkEntry {
    WalkEntry::Found { path: path.as_bytes().to_vec(), is_file: true }
}

fn matching(n: usize, line: &str) -> FileSearch {
    FileSearch {
        events: (0..n)
            .map(|i| SearchEvent::Match {
                line_number: Some(i as u64 + 1),
                bytes: line.as_bytes().to_vec(),
            })
            .collect(),
        failure: None,
    }
}

fn silent() -> FileSearch {
    FileSearch { events: vec![], failure: None }
}

const ROOT: &[u8] = b"/";

fn inside(path: &str) -> Result<Vec<u8>, String> {
    Ok(path.as_bytes().to_vec())
}

fn item(path: &str, search: FileSearch) -> GrepItem {
    GrepItem { entry: file(path), resolved: inside(path), search }
}

fn unread(msg: &str) -> GrepItem {
    GrepItem {
        entry: WalkEntry::Failed(msg.to_string()),
        resolved: Err(String::new()),
        search: silent(),
    }
}

fn mode(output_mode: OutputMode, max_results: usize, max_bytes: usize) -> GrepOptions {
    GrepOptions { output_mode, max_results, max_bytes, ..Default::default() }
}

#[test]
fn content_is_capped_across_files() {
    let items = vec![item("/a", matching(2, "x\n")), item("/b", matching(3, "y"))];
    let res = grep("x", &mode(OutputMode::Content, 3, 1000), &items, ROOT).expect("a response");
    assert_eq!(res.content, "/a:1: x\n/a:2: x\n/b:1: y\n");
    assert_eq!(res.match_count, Some(4));
    assert!(!res.truncated);
}

#[test]
fn content_is_capped_in_bytes() {
    let items = vec![item("/a", matching(3, "x\n"))];
    let res = grep("x", &mode(OutputMode::Content, 100, 10), &items, ROOT).expect("a response");
    assert_eq!(res.content, "/a:1: x\n/\n");
    assert!(res.truncated);
    assert_eq!(res.truncation_reason.as_deref(), Some("byte_cap"));
    assert_eq!(res.match_count, Some(3));
    for max_bytes in 0..40 {
        for output_mode in [OutputMode::Content, OutputMode::FilesWithMatches, OutputMode::Count] {
            let res = grep("x", &mode(output_mode, 100, max_bytes), &items, ROOT).expect("text");
            assert!(res.content.len() <= max_bytes);
        }
    }
}

#[test]
fn a_listing_keeps_to_its_cap() {
    let items = vec![item("/w/a.txt", matching(1, "x\n"))];
    let opts = mode(OutputMode::FilesWithMatches, 100, 3);
    let res = grep("x", &opts, &items, ROOT).expect("a response");
    assert_eq!(res.content, "/w\n");
    assert!(res.truncated);
    let opts = mode(OutputMode::FilesWithMatches, 100, 0);
    let res = grep("x", &opts, &items, ROOT).expect("a response");
    assert_eq!(res.content, "");
    assert!(res.truncated);
}

#[test]
fn a_match_dropped_for_the_cap_is_marked() {
    let items = vec![item("/w/a.txt", matching(2, "ab\n"))];
    let res = grep("ab", &mode(OutputMode::Content, 100, 15), &items, ROOT).expect("a response");
    assert_eq!(res.content, "/w/a.txt:1: ab\n");
    assert!(res.truncated);
    assert_eq!(res.truncation_reason.as_deref(), Some("byte_cap"));
    let items = vec![item("/w/a.txt", matching(1, "ab\n"))];
    let res = grep("ab", &mode(OutputMode::Content, 100, 15), &items, ROOT).expect("a response");
    assert_eq!(res.content, "/w/a.txt:1: ab\n");
    assert!(!res.truncated);
}

#[test]
fn files_outside_the_root_do_not_show() {
    let linked = |search| GrepItem {
        entry: file("/w/proj/link/s.txt"),
        resolved: inside("/w/out/s.txt"),
        search,
    };
    for output_mode in [OutputMode::Content, OutputMode::FilesWithMatches, OutputMode::Count] {
        let opts = GrepOptions { follow_symlinks: true, ..mode(output_mode, 10, 1000) };
        let items = vec![linked(matching(3, "needle\n"))];
        let res = grep("needle", &opts, &items, b"/w/proj").expect("a response");
        assert_eq!(res.content, "");
        assert_eq!(res.match_count, Some(0));
        assert_eq!(res.entry_error_count, Some(0));
        let res = grep("needle", &opts, &items, b"/w").expect("a response");
        assert!(res.content.contains("/w/proj/link/s.txt"));
    }
    let found = vec![FindItem {
        entry: file("/w/proj/link/s.txt"),
        resolved: inside("/w/out/s.txt"),
    }];
    let res = find("s", &FindOptions::default(), &found, b"/w/proj").expect("a response");
    assert_eq!((res.content.as_str(), res.match_count), ("", Some(0)));
}

#[test]
fn files_that_do_not_resolve_are_errors() {
    let lost = || Err("gone".to_string());
    let items = vec![GrepItem {
        entry: file("/a"),
        resolved: lost(),
        search: matching(1, "x\n"),
    }];
    let res = grep("x", &mode(OutputMode::Content, 10, 100), &items, ROOT).expect("a response");
    assert_eq!((res.entry_error_count, res.match_count), (Some(1), Some(0)));
    assert_eq!(res.first_error.as_deref(), Some("/a: gone"));
    let found = vec![FindItem { entry: file("/a"), resolved: lost() }];
    let res = find("a", &FindOptions::default(), &found, ROOT).expect("a response");
    assert_eq!((res.entry_error_count, res.match_count), (Some(1), Some(0)));
    assert_eq!(res.first_error.as_deref(), Some("/a: gone"));
}

#[test]
fn listing_names_each_file_once() {
    let items = vec![
        item("/a", matching(5, "x\n")),
        item("/b", silent()),
        item("/c", matching(1, "x\n")),
        item("/d", matching(1, "x\n")),
    ];
    let res = grep("x", &mode(OutputMode::FilesWithMatches, 2, 1000), &items, ROOT).expect("a response");
    assert_eq!(res.content, "/a\n/c\n");
    assert_eq!(res.match_count, Some(2));
}

#[test]
fn counts_are_sorted_and_summed() {
    let items = vec![
        item("/b", matching(2, "x\n")),
        item("/a", matching(1, "x\n")),
        item("/c", silent()),
        item("/b", matching(4, "x\n")),
    ];
    let res = grep("x", &mode(OutputMode::Count, 10, 1000), &items, ROOT).expect("a response");
    assert_eq!(res.content, "/a: 1\n/b: 6\n");
    assert_eq!(res.match_count, Some(7));
    assert!(!res.truncated);
}

#[test]
fn counts_keep_whole_lines() {
    let files = vec![
        FileCount { path: "/b".to_string(), count: 2 },
        FileCount { path: "/a".to_string(), count: 10 },
    ];
    let res = finish_count(files, ErrorState::new(), 10, 8);
    assert_eq!(res.content, "/a: 10\n");
    assert!(res.truncated);
    assert_eq!(res.truncation_reason.as_deref(), Some("byte_cap"));
    assert_eq!(res.match_count, Some(12));

    let files = vec![
        FileCount { path: "/b".to_string(), count: 2 },
        FileCount { path: "/a".to_string(), count: 10 },
    ];
    let res = finish_count(files, ErrorState::new(), 1, 100);
    assert_eq!(res.content, "/a: 10\n");
    assert_eq!(res.truncation_reason.as_deref(), Some("max_results"));
}

#[test]
fn tallies_add_up_by_path() {
    let sums = tally(vec![
        FileCount { path: "é".to_string(), count: 1 },
        FileCount { path: "b".to_string(), count: 2 },
        FileCount { path: "é".to_string(), count: 3 },
    ]);
    let shown: Vec<(&str, usize)> = sums.iter().map(|f| (f.path.as_str(), f.count)).collect();
    assert_eq!(shown, vec![("b", 2), ("é", 4)]);
}

#[test]
fn errors_are_tallied_and_end_nothing() {
    for output_mode in [OutputMode::Content, OutputMode::FilesWithMatches, OutputMode::Count] {
        let items = vec![
            unread("no access"),
            item("/a", FileSearch { events: vec![], failure: Some("is locked".to_string()) }),
            unread("gone"),
            item("/b", matching(1, "x\n")),
        ];
        let res = grep("x", &mode(output_mode, 10, 1000), &items, ROOT).expect("a response");
        assert_eq!(res.entry_error_count, Some(2));
        assert_eq!(res.search_error_count, Some(1));
        assert_eq!(res.first_error.as_deref(), Some("no access"));
        assert_eq!(res.match_count, Some(1));
        assert!(res.content.contains("/b"), "got {}", res.content);
    }
}

#[test]
fn search_errors_are_shown_with_their_path() {
    let mut errors = ErrorState::new();
    errors.record_search_error(b"/a\xff", "is locked");
    errors.record_search_error(b"/b", "is gone");
    let response = streamed_response(&vec![], errors, 0, 10);
    assert_eq!(response.search_error_count, Some(2));
    assert_eq!(response.first_error.as_deref(), Some("/a\u{fffd}: is locked"));
}

#[test]
fn a_stopped_search_does_not_fail() {
    let items = vec![item(
        "/a",
        FileSearch { failure: Some("late".to_string()), ..matching(2, "x\n") },
    )];
    let res = grep("x", &mode(OutputMode::FilesWithMatches, 5, 100), &items, ROOT).expect("a response");
    assert_eq!(res.search_error_count, Some(0));
    let res = grep("x", &mode(OutputMode::Content, 1, 100), &items, ROOT).expect("a response");
    assert_eq!(res.search_error_count, Some(0));
    let res = grep("x", &mode(OutputMode::Content, 5, 100), &items, ROOT).expect("a response");
    assert_eq!(res.search_error_count, Some(1));
}

#[test]
fn entries_are_judged() {
    let rs = vec!["rs".to_string()];
    let judge = |count, entry: WalkEntry, extensions: &Vec<String>| {
        judge_entry(count, 5, &entry, extensions, b"/p", &inside("/p/x"))
    };
    assert_eq!(judge(5, file("/p/a.rs"), &rs), EntryStep::Quit);
    assert_eq!(judge(0, file("/p/a.rs"), &rs), EntryStep::Search);
    assert_eq!(judge(0, file("/p/a.txt"), &rs), EntryStep::Skip);
    assert_eq!(judge(0, file("/p/a.txt"), &vec![]), EntryStep::Search);
    let dir = WalkEntry::Found { path: b"/p/a.rs".to_vec(), is_file: false };
    assert_eq!(judge(0, dir, &rs), EntryStep::Skip);
    assert_eq!(judge(0, WalkEntry::Failed("x".to_string()), &rs), EntryStep::Failed);
    let out = judge_entry(0, 5, &file("/p/a.rs"), &rs, b"/p", &inside("/q/a.rs"));
    assert_eq!(out, EntryStep::Skip);
    let lost = judge_entry(0, 5, &file("/p/a.rs"), &rs, b"/p", &Err("gone".to_string()));
    assert_eq!(lost, EntryStep::Failed);
    assert!(in_scope(b"/p", &inside("/p/a")));
    assert!(!in_scope(b"/p", &inside("/pq/a")));
    assert!(!in_scope(b"/p", &Err("gone".to_string())));
    assert!(wants_more(4, 5));
    assert!(!wants_more(5, 5));
}

#[test]
fn extensions_are_those_of_the_last_component() {
    let rs = vec!["rs".to_string(), "toml".to_string()];
    assert!(extension_matches(b"/x.d/main.rs", &rs));
    assert!(extension_matches(b"Cargo.toml", &rs));
    assert!(!extension_matches(b"/x.rs/main", &rs));
    assert!(!extension_matches(b"/.rs", &rs));
    assert!(!extension_matches(b"/a.RS", &rs));
    assert!(extension_matches(b"/anything", &vec![]));
}

#[test]
fn sinks_share_a_counter() {
    let mut sink = MatchSink::new(b"/a", 2, 100);
    assert!(sink.matched(1, Some(7), b"x"));
    assert!(!sink.matched(2, Some(8), b"y"));
    assert!(sink.context(None, b"z"));
    assert_eq!(sink.into_chunk(), Some("/a:7: x\n/a-0 z\n".to_string()));
    let mut full = MatchSink::new(b"/a", 9, 8);
    assert!(full.matched(0, Some(1), b"x"));
    assert!(full.context(Some(2), b"y"));
    assert!(!full.context(Some(3), b"z"));
    assert!(!full.matched(1, Some(4), b"w"));
    assert_eq!(MatchSink::new(b"/a", 2, 100).into_chunk(), None);

    let mut listed = FileMatchSink::new(2);
    assert!(!listed.matched(1));
    assert_eq!(listed.into_chunk(b"/a"), Some("/a\n".to_string()));
    let mut late = FileMatchSink::new(2);
    assert!(!late.matched(2));
    assert_eq!(late.into_chunk(b"/a"), None);

    let mut count = CountSink::new();
    assert!(count.matched());
    assert!(count.context());
    assert!(count.matched());
    assert_eq!(count.count, 2);
    assert!(file_count_of(b"/a", 0).is_none());
    assert_eq!(file_count_of(b"/a", 2).expect("a count").count, 2);
}

#[test]
fn chunks_are_joined_under_a_cap() {
    let chunks = vec!["ab\n".to_string(), "cd\n".to_string(), "ef\n".to_string()];
    assert_eq!(drain_capped(&chunks, 9), ("ab\ncd\nef\n".to_string(), false));
    assert_eq!(drain_capped(&chunks, 6), ("ab\ncd\n".to_string(), true));
    assert_eq!(drain_capped(&chunks, 5), ("ab\ncd\n".to_string(), true));
    assert_eq!(drain_capped(&chunks, 4), ("ab\nc\n".to_string(), true));
    assert_eq!(drain_capped(&chunks, 0), ("\n".to_string(), true));
    assert_eq!(drain_capped(&vec![], 0), (String::new(), false));
}

#[test]
fn found_files_are_capped_exactly() {
    let entries: Vec<FindItem> = vec![
        file("/x/a.rs"),
        WalkEntry::Failed("no access".to_string()),
        WalkEntry::Found { path: b"/x/a.rs.d".to_vec(), is_file: false },
        file("/x/b.rs"),
        file("/x/c.rs"),
    ]
    .into_iter()
    .map(|entry| FindItem { entry, resolved: inside("/x/file") })
    .collect();
    let opts = FindOptions { max_results: 2, ..Default::default() };
    let res = find(r"\.rs", &opts, &entries, ROOT).expect("a response");
    assert_eq!(res.content, "/x/a.rs\n/x/b.rs\n");
    assert_eq!(res.match_count, Some(2));
    assert_eq!(res.entry_error_count, Some(1));
    assert_eq!(res.search_error_count, Some(0));
    assert_eq!(res.first_error.as_deref(), Some("no access"));
    assert!(!res.truncated);

    let hits = vec![false, false, true, true, false];
    let res = find_among(&entries, &hits, &opts, ROOT);
    assert_eq!(res.content, "/x/b.rs\n");
    assert_eq!(find_hit(1, 2, b"/a"), Some("/a\n".to_string()));
    assert_eq!(find_hit(2, 2, b"/a"), None);
}

#[test]
fn paths_without_a_name_are_skipped() {
    let judge = |count, path: &str, match_basename| {
        judge_find_entry(count, 5, &file(path), match_basename, ROOT, &inside("/x/y.rs"))
    };
    assert!(matches!(judge(0, "/x/..", true), FindStep::Skip));
    match judge(0, "/x/..", false) {
        FindStep::Test(hay) => assert_eq!(hay, "/x/.."),
        other => panic!("expected a test, got {:?}", other),
    }
    match judge(0, "/x/y.rs", true) {
        FindStep::Test(hay) => assert_eq!(hay, "y.rs"),
        other => panic!("expected a test, got {:?}", other),
    }
    assert!(matches!(judge(5, "/x", true), FindStep::Quit));
}

#[test]
fn grep_output_mode_rejects_unknown() {
    match OutputMode::from_str_lossy("bogus") {
        Err(AppError::InvalidRequest(msg)) => {
            assert!(msg.contains("bogus"), "got: {}", msg);
            assert_eq!(
                msg,
                "unknown output_mode 'bogus'; expected one of: files_with_matches, content, count"
            );
        }
        other => panic!("expected InvalidRequest, got {:?}", other),
    }
}

#[test]
fn output_modes_have_names() {
    assert_eq!(
        OutputMode::from_str_lossy("files_with_matches").expect("a mode"),
        OutputMode::FilesWithMatches
    );
    assert_eq!(OutputMode::from_str_lossy("content").expect("a mode"), OutputMode::Content);
    assert_eq!(OutputMode::from_str_lossy("count").expect("a mode"), OutputMode::Count);
    assert!(OutputMode::from_str_lossy("Content").is_err());
    assert!(OutputMode::from_str_lossy("").is_err());
}

#[test]
fn results_carry_text_and_structure() {
    let result = call_result(Ok(ToolResponse::text("hello".to_string())));
    assert_eq!(result.text, "hello");
    assert!(!result.is_error);
    assert_eq!(result.structured.expect("structure").content, "hello");
    let result = call_result(Err(AppError::NotFound("x".to_string())));
    assert_eq!(result.text, "Not found: x");
    assert!(result.is_error);
    assert!(result.structured.is_none());
}
