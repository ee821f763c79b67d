//! `grep` and `find` over real directories: a single walker reads them with the engines that the
//! library configures, and the library does the rest.

use std::io::Write;
use std::path::{Path, PathBuf};

use code_mcp::error::AppError;
use code_mcp::tools::common::{build_parallel_walker, WalkEntry};
use code_mcp::tools::find::{find, FindItem};
use code_mcp::tools::grep::{
    build_matcher, build_searcher, grep, FileSearch, GrepItem, SearchEvent, StreamMode,
};
use code_mcp::tools::options::{FindOptions, GrepOptions, OutputMode, WalkerConfig};
use code_mcp::tools::response::ToolResponse;
use grep_searcher::{Searcher, Sink, SinkContext, SinkMatch};
use tempfile::{NamedTempFile, TempDir};

type TestResult = Result<(), Box<dyn std::error::Error>>;

/// A directory with files in it; they go away with it.
struct Tree {
    root: TempDir,
    dirs: Vec<TempDir>,
    files: Vec<NamedTempFile>,
}

impl Tree {
    fn new() -> std::io::Result<Self> {
        let root = tempfile::Builder::new().prefix("tree").tempdir()?;
        Ok(Tree { root, dirs: Vec::new(), files: Vec::new() })
    }

    fn path(&self) -> PathBuf {
        self.root.path().to_path_buf()
    }

    fn dir(&mut self, name: &str) -> std::io::Result<PathBuf> {
        let dir = tempfile::Builder::new().prefix(name).rand_bytes(0).tempdir_in(self.root.path())?;
        let path = dir.path().to_path_buf();
        self.dirs.push(dir);
        Ok(path)
    }

    fn file_in(&mut self, dir: &Path, name: &str, contents: &str) -> std::io::Result<()> {
        let mut file = tempfile::Builder::new().prefix(name).rand_bytes(0).tempfile_in(dir)?;
        file.write_all(contents.as_bytes())?;
        file.flush()?;
        self.files.push(file);
        Ok(())
    }

    fn file(&mut self, name: &str, contents: &str) -> std::io::Result<()> {
        let root = self.path();
        self.file_in(&root, name, contents)
    }
}

/// Keeps every line that a search reports.
struct Collector {
    events: Vec<SearchEvent>,
}

impl Sink for Collector {
    type Error = std::io::Error;

    fn matched(&mut self, _: &Searcher, mat: &SinkMatch<'_>) -> Result<bool, std::io::Error> {
        self.events.push(SearchEvent::Match {
            line_number: mat.line_number(),
            bytes: mat.bytes().to_vec(),
        });
        Ok(true)
    }

    fn context(&mut self, _: &Searcher, ctx: &SinkContext<'_>) -> Result<bool, std::io::Error> {
        self.events.push(SearchEvent::Context {
            line_number: ctx.line_number(),
            bytes: ctx.bytes().to_vec(),
        });
        Ok(true)
    }
}

fn bytes_of(path: &Path) -> Vec<u8> {
    path.as_os_str().as_encoded_bytes().to_vec()
}

fn resolve(path: &Path) -> Result<Vec<u8>, String> {
    path.canonicalize().map(|p| bytes_of(&p)).map_err(|e| e.to_string())
}

/// The root of a scope that holds `directory`.
fn root_of(directory: &Path) -> Vec<u8> {
    resolve(directory).unwrap_or_else(|_| bytes_of(directory))
}

fn walk<C: WalkerConfig>(directory: &Path, opts: &C) -> Vec<(PathBuf, WalkEntry)> {
    let mut found = Vec::new();
    for result in build_parallel_walker(&directory.to_path_buf(), opts).build() {
        match result {
            Ok(entry) => {
                let is_file = entry.file_type().is_some_and(|ft| ft.is_file());
                let path = entry.path().to_path_buf();
                let bytes = bytes_of(&path);
                found.push((path, WalkEntry::Found { path: bytes, is_file }));
            }
            Err(err) => found.push((PathBuf::new(), WalkEntry::Failed(err.to_string()))),
        }
    }
    found
}

fn run_grep(directory: &Path, pattern: &str, opts: GrepOptions) -> Result<ToolResponse, AppError> {
    let mode = match opts.output_mode {
        OutputMode::Content => StreamMode::Content,
        _ => StreamMode::FilesWithMatches,
    };
    let matcher = build_matcher(pattern, &opts)?;
    let mut searcher = build_searcher(&opts, mode);
    let mut items = Vec::new();
    for (path, entry) in walk(directory, &opts) {
        let mut sink = Collector { events: Vec::new() };
        let mut failure = None;
        if let WalkEntry::Found { is_file: true, .. } = &entry {
            failure = searcher.search_path(&matcher, &path, &mut sink).err().map(|e| e.to_string());
        }
        let search = FileSearch { events: sink.events, failure };
        items.push(GrepItem { entry, resolved: resolve(&path), search });
    }
    grep(pattern, &opts, &items, &root_of(directory))
}

fn run_find(directory: &Path, pattern: &str, opts: FindOptions) -> Result<ToolResponse, AppError> {
    let entries: Vec<FindItem> = walk(directory, &opts)
        .into_iter()
        .map(|(path, entry)| FindItem { entry, resolved: resolve(&path) })
        .collect();
    find(pattern, &opts, &entries, &root_of(directory))
}

fn failed(e: AppError) -> Box<dyn std::error::Error> {
    e.message().into()
}

fn check_max_results_cap() -> TestResult {
    let mut tree = Tree::new()?;
    for i in 0..50 {
        tree.file(&format!("f{}.txt", i), "needle here\n")?;
    }
    let opts = GrepOptions { max_results: 10, respect_gitignore: false, ..Default::default() };
    let res = run_grep(&tree.path(), "needle", opts).map_err(failed)?;
    assert!(
        res.match_count.unwrap() <= 15,
        "expected match_count <= 15, got {:?}",
        res.match_count
    );
    assert!(!res.truncated);
    assert_eq!(res.match_count, Some(10));
    assert_eq!(res.content.lines().count(), 10);
    Ok(())
}

#[test]
fn tools_grep_respects_max_results_cap() -> TestResult {
    check_max_results_cap()
}

#[test]
fn grep_grep_respects_max_results_cap() -> TestResult {
    check_max_results_cap()
}

fn check_case_toggle() -> TestResult {
    let mut tree = Tree::new()?;
    tree.file("a.txt", "Hello World\n")?;

    let case_sensitive = run_grep(
        &tree.path(),
        "hello",
        GrepOptions {
            output_mode: OutputMode::Content,
            respect_gitignore: false,
            ..Default::default()
        },
    )
    .map_err(failed)?;
    assert_eq!(case_sensitive.match_count, Some(0), "got {}", case_sensitive.content);

    let case_insensitive = run_grep(
        &tree.path(),
        "hello",
        GrepOptions {
            case_insensitive: true,
            output_mode: OutputMode::Content,
            respect_gitignore: false,
            ..Default::default()
        },
    )
    .map_err(failed)?;
    assert!(
        case_insensitive.content.contains("Hello World"),
        "got {}",
        case_insensitive.content
    );
    Ok(())
}

#[test]
fn tools_grep_case_insensitive_toggle() -> TestResult {
    check_case_toggle()
}

#[test]
fn grep_grep_case_insensitive_toggle() -> TestResult {
    check_case_toggle()
}

fn check_extension_filter() -> TestResult {
    let mut tree = Tree::new()?;
    tree.file("a.rs", "fn target() {}\n")?;
    tree.file("b.txt", "fn target() {}\n")?;

    let res = run_grep(
        &tree.path(),
        "target",
        GrepOptions {
            file_extensions: vec!["rs".to_string()],
            respect_gitignore: false,
            ..Default::default()
        },
    )
    .map_err(failed)?;
    assert!(res.content.contains("a.rs"), "got {}", res.content);
    assert!(!res.content.contains("b.txt"), "got {}", res.content);
    Ok(())
}

#[test]
fn tools_grep_filters_by_extension() -> TestResult {
    check_extension_filter()
}

#[test]
fn grep_grep_filters_by_extension() -> TestResult {
    check_extension_filter()
}

fn check_gitignore() -> TestResult {
    let mut tree = Tree::new()?;
    tree.dir(".git")?;
    tree.file(".gitignore", "secrets.txt\n")?;
    tree.file("secrets.txt", "needle\n")?;
    tree.file("open.txt", "needle\n")?;

    let respected = run_grep(
        &tree.path(),
        "needle",
        GrepOptions { respect_gitignore: true, ..Default::default() },
    )
    .map_err(failed)?;
    assert!(!respected.content.contains("secrets.txt"), "got {}", respected.content);
    assert!(respected.content.contains("open.txt"), "got {}", respected.content);

    let ignored = run_grep(
        &tree.path(),
        "needle",
        GrepOptions { respect_gitignore: false, ..Default::default() },
    )
    .map_err(failed)?;
    assert!(ignored.content.contains("secrets.txt"), "got {}", ignored.content);
    Ok(())
}

#[test]
fn tools_grep_respects_gitignore() -> TestResult {
    check_gitignore()
}

#[test]
fn grep_grep_respects_gitignore() -> TestResult {
    check_gitignore()
}

#[test]
fn grep_files_with_matches_mode() -> TestResult {
    let mut tree = Tree::new()?;
    tree.file("a.txt", "needle\nneedle\nneedle\n")?;
    tree.file("b.txt", "no match\n")?;
    tree.file("c.rs", "needle here\n")?;

    let res = run_grep(
        &tree.path(),
        "needle",
        GrepOptions {
            output_mode: OutputMode::FilesWithMatches,
            respect_gitignore: false,
            ..Default::default()
        },
    )
    .map_err(failed)?;
    assert!(res.content.contains("a.txt"), "got {}", res.content);
    assert!(!res.content.contains("b.txt"), "got {}", res.content);
    assert!(res.content.contains("c.rs"), "got {}", res.content);
    assert!(!res.content.contains("1:"), "should not have line numbers: {}", res.content);
    assert_eq!(res.match_count, Some(2), "got {:?}", res.match_count);
    Ok(())
}

#[test]
fn grep_files_with_matches_respects_max_results() -> TestResult {
    let mut tree = Tree::new()?;
    for i in 0..20 {
        tree.file(&format!("f{}.txt", i), "needle\n")?;
    }

    let res = run_grep(
        &tree.path(),
        "needle",
        GrepOptions {
            output_mode: OutputMode::FilesWithMatches,
            max_results: 5,
            respect_gitignore: false,
            ..Default::default()
        },
    )
    .map_err(failed)?;
    assert!(
        res.match_count.unwrap() <= 7,
        "expected match_count <= 7, got {:?}",
        res.match_count
    );
    assert_eq!(res.content.lines().count(), 5);
    Ok(())
}

#[test]
fn grep_count_mode() -> TestResult {
    let mut tree = Tree::new()?;
    tree.file("a.txt", "needle\nneedle\nneedle\n")?;
    tree.file("b.txt", "no match\n")?;
    tree.file("c.rs", "needle here\n")?;

    let res = run_grep(
        &tree.path(),
        "needle",
        GrepOptions {
            output_mode: OutputMode::Count,
            respect_gitignore: false,
            ..Default::default()
        },
    )
    .map_err(failed)?;
    assert!(res.content.contains("a.txt: 3"), "got {}", res.content);
    assert!(!res.content.contains("b.txt"), "got {}", res.content);
    assert!(res.content.contains("c.rs: 1"), "got {}", res.content);
    assert_eq!(res.match_count, Some(4), "got {:?}", res.match_count);
    Ok(())
}

#[test]
fn content_mode_shows_numbers_and_context() -> TestResult {
    let mut tree = Tree::new()?;
    tree.file("a.txt", "one\ntwo\nneedle\nfour\nfive\n")?;
    let path = tree.path().join("a.txt");

    let res = run_grep(
        &tree.path(),
        "needle",
        GrepOptions {
            output_mode: OutputMode::Content,
            before_context: 1,
            after_context: 2,
            respect_gitignore: false,
            ..Default::default()
        },
    )
    .map_err(failed)?;
    let shown = path.display();
    assert_eq!(
        res.content,
        format!("{shown}-2 two\n{shown}:3: needle\n{shown}-4 four\n{shown}-5 five\n")
    );
    assert_eq!(res.match_count, Some(1));
    assert_eq!(res.entry_error_count, Some(0));
    assert_eq!(res.search_error_count, Some(0));
    assert_eq!(res.first_error, None);
    Ok(())
}

#[test]
fn ignoring_case_is_a_matter_of_the_flag_or_the_pattern() -> TestResult {
    let mut tree = Tree::new()?;
    tree.file("a.txt", "Hello\nHELLO\nhello\nhell\n")?;
    let opts = |case_insensitive| GrepOptions {
        case_insensitive,
        output_mode: OutputMode::Content,
        respect_gitignore: false,
        ..Default::default()
    };
    let by_flag = run_grep(&tree.path(), "hello", opts(true)).map_err(failed)?;
    let by_pattern = run_grep(&tree.path(), "(?i)hello", opts(false)).map_err(failed)?;
    assert_eq!(by_flag.content, by_pattern.content);
    assert_eq!(by_flag.match_count, Some(3));
    Ok(())
}

#[test]
fn files_with_a_nul_byte_are_given_up() -> TestResult {
    let mut tree = Tree::new()?;
    tree.file("a.bin", "needle\0needle\n")?;
    tree.file("b.txt", "needle\n")?;
    let res = run_grep(&tree.path(), "needle", GrepOptions::default()).map_err(failed)?;
    assert!(res.content.contains("b.txt"), "got {}", res.content);
    assert!(!res.content.contains("a.bin"), "got {}", res.content);
    Ok(())
}

#[test]
fn hidden_files_are_walked_on_demand() -> TestResult {
    let mut tree = Tree::new()?;
    tree.file(".secret.txt", "needle\n")?;
    let plain = run_grep(&tree.path(), "needle", GrepOptions::default()).map_err(failed)?;
    assert_eq!(plain.match_count, Some(0));
    let all = run_grep(
        &tree.path(),
        "needle",
        GrepOptions { include_hidden: true, ..Default::default() },
    )
    .map_err(failed)?;
    assert_eq!(all.match_count, Some(1));
    let found = run_find(
        &tree.path(),
        "secret",
        FindOptions { include_hidden: true, ..Default::default() },
    )
    .map_err(failed)?;
    assert_eq!(found.match_count, Some(1));
    Ok(())
}

#[test]
fn a_missing_directory_is_an_entry_error() -> TestResult {
    let tree = Tree::new()?;
    let missing = tree.path().join("nope");
    let res = run_grep(&missing, "needle", GrepOptions::default()).map_err(failed)?;
    assert_eq!(res.entry_error_count, Some(1));
    assert_eq!(res.match_count, Some(0));
    assert!(res.first_error.is_some());
    let res = run_find(&missing, "x", FindOptions::default()).map_err(failed)?;
    assert_eq!(res.entry_error_count, Some(1));
    assert_eq!(res.search_error_count, Some(0));
    assert!(res.first_error.is_some());
    Ok(())
}

#[test]
fn bad_patterns_are_errors() -> TestResult {
    let tree = Tree::new()?;
    match run_grep(&tree.path(), "(", GrepOptions::default()) {
        Err(AppError::GrepRegex(text)) => assert!(text.contains("unclosed group"), "got {}", text),
        other => panic!("expected GrepRegex, got {:?}", other),
    }
    let counting = GrepOptions { output_mode: OutputMode::Count, ..Default::default() };
    match grep("(", &counting, &vec![], b"/") {
        Err(AppError::GrepRegex(_)) => {}
        other => panic!("expected GrepRegex, got {:?}", other),
    }
    match run_find(&tree.path(), "(", FindOptions::default()) {
        Err(AppError::Regex(text)) => assert!(text.contains("unclosed group"), "got {}", text),
        other => panic!("expected Regex, got {:?}", other),
    }
    Ok(())
}

fn check_find() -> TestResult {
    let mut tree = Tree::new()?;
    let sub = tree.dir("sub")?;
    tree.file_in(&sub, "foo.rs", "")?;
    tree.file_in(&sub, "bar.rs", "")?;

    let basename = run_find(
        &tree.path(),
        "^foo",
        FindOptions { match_basename: true, respect_gitignore: false, ..Default::default() },
    )
    .map_err(failed)?;
    assert!(basename.content.contains("foo.rs"), "got {}", basename.content);
    assert!(!basename.content.contains("bar.rs"), "got {}", basename.content);

    let fullpath_anchored = run_find(
        &tree.path(),
        "^foo",
        FindOptions { match_basename: false, respect_gitignore: false, ..Default::default() },
    )
    .map_err(failed)?;
    assert_eq!(fullpath_anchored.match_count, Some(0), "got {}", fullpath_anchored.content);

    let fullpath_ok = run_find(
        &tree.path(),
        r"sub.*foo\.rs$",
        FindOptions { match_basename: false, respect_gitignore: false, ..Default::default() },
    )
    .map_err(failed)?;
    assert!(fullpath_ok.content.contains("foo.rs"), "got {}", fullpath_ok.content);
    Ok(())
}

#[test]
fn tools_find_match_basename_and_full_path() -> TestResult {
    check_find()
}

#[test]
fn find_find_match_basename_and_full_path() -> TestResult {
    check_find()
}
