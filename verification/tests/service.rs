//! The server around the tools: errors, scope, memories, arguments, limits, admission and the sweep.

use code_mcp::args::{
    default_false, default_file_extensions, default_max_bytes, default_max_lines,
    default_max_results, default_output_mode, default_true, default_zero, CatArgs, FindArgs,
    GrepArgs, MemoriesArgs, StringOrVec,
};
use code_mcp::error::{join_error, tool_error, AppError, ErrorCode};
use code_mcp::gate::{forwarded_hop, gate, header_text, peer_ip, GateCtx, Verdict};
use code_mcp::limiter::{PeerAddr, PeerLimiter};
use code_mcp::memory::{is_plain, load_memory, memory_target, MemoryEntry};
use code_mcp::ordering::sort_bytes;
use code_mcp::paths::{extension, file_name, join, within};
use code_mcp::reaper::ActivityTracker;
use code_mcp::scope::{Resolved, Scope};
use code_mcp::server::CodeMcpServer;
use code_mcp::tools::common::WalkEntry;
use code_mcp::tools::find::FindItem;
use code_mcp::tools::grep::{FileSearch, GrepItem, SearchEvent};

const SECOND: u64 = 1_000_000_000;

/// Millionths.
fn micro(tokens: f64) -> u64 {
    (tokens * 1_000_000.0).round() as u64
}

/// A limiter as rates per second describe it.
fn limiter(capacity: f64, refill_per_sec: f64, evict_threshold: usize) -> PeerLimiter {
    PeerLimiter::new(micro(capacity), micro(refill_per_sec * 60.0), evict_threshold)
}

fn ip(n: u8) -> PeerAddr {
    PeerAddr::V4(u32::from_be_bytes([127, 0, 0, n]))
}

#[test]
fn allows_within_capacity() {
    let mut l = limiter(3.0, 0.001, 1024);
    for _ in 0..3 {
        assert!(l.try_consume(ip(1), 0).is_ok());
    }
}

#[test]
fn blocks_after_exhaustion() {
    let mut l = limiter(2.0, 0.001, 1024);
    l.try_consume(ip(1), 0).unwrap();
    l.try_consume(ip(1), 0).unwrap();
    let err = l.try_consume(ip(1), 0).expect_err("third call should be rate-limited");
    assert!(err > 0);
    assert_eq!(err, 1000 * SECOND);
}

#[test]
fn separate_ips_get_separate_buckets() {
    let mut l = limiter(1.0, 0.001, 1024);
    assert!(l.try_consume(ip(1), 0).is_ok());
    assert!(l.try_consume(ip(2), 0).is_ok());
    assert!(l.try_consume(ip(1), 0).is_err());
}

#[test]
fn refills_over_time() {
    let mut l = limiter(1.0, 10.0, 1024);
    l.try_consume(ip(1), 0).unwrap();
    assert!(l.try_consume(ip(1), 0).is_err());
    assert!(l.try_consume(ip(1), 150_000_000).is_ok());
}

#[test]
fn evicts_stale_entries_when_threshold_exceeded() {
    let mut l = limiter(1.0, 1000.0, 4);
    for n in 0..4 {
        l.try_consume(ip(n), 0).unwrap();
    }
    for n in 4..10 {
        l.try_consume(ip(n), 20_000_000).unwrap();
    }
    assert!(
        l.bucket_count() <= 6,
        "bucket count should have shrunk after eviction, got {}",
        l.bucket_count()
    );
    assert_eq!(l.bucket_count(), 6);
}

#[test]
fn waiting_as_told_is_enough_and_no_more() {
    let mut l = PeerLimiter::per_minute(7);
    for _ in 0..7 {
        assert!(l.try_consume(ip(1), 5).is_ok());
    }
    let wait = l.try_consume(ip(1), 5).expect_err("empty");
    assert_eq!(wait, 8_571_428_572);
    let mut early = PeerLimiter::per_minute(7);
    for _ in 0..7 {
        assert!(early.try_consume(ip(1), 5).is_ok());
    }
    assert_eq!(early.try_consume(ip(1), 5 + wait - 1), Err(1));
    assert!(l.try_consume(ip(1), 5 + wait).is_ok());
}

#[test]
fn eviction_makes_no_difference() {
    let mut few = limiter(2.0, 1.0, 0);
    let mut many = limiter(2.0, 1.0, 100);
    for (peer, now) in [(1, 0), (2, 0), (1, 0), (2, 5), (1, 5), (1, 5), (1, 5), (2, 5), (2, 5)] {
        let at = now * SECOND;
        assert_eq!(few.try_consume(ip(peer), at), many.try_consume(ip(peer), at));
    }
    assert!(few.try_consume(ip(3), 60 * SECOND).is_ok());
    assert_eq!(few.bucket_count(), 1);
    assert!(many.try_consume(ip(3), 60 * SECOND).is_ok());
    assert_eq!(many.bucket_count(), 3);
}

#[test]
fn a_minute_lets_through_a_full_bucket_and_a_refill() {
    let mut l = PeerLimiter::per_minute(12);
    let mut served = 0;
    for tick in 0..=600 {
        if l.try_consume(ip(1), tick * SECOND / 10).is_ok() {
            served += 1;
        }
    }
    assert_eq!(served, 24);
}

#[test]
fn a_rate_of_nothing_counts_as_one() {
    let mut l = PeerLimiter::per_minute(0);
    assert!(l.try_consume(ip(1), 0).is_ok());
    assert_eq!(l.try_consume(ip(1), 0), Err(60 * SECOND));
}

#[test]
fn a_bucket_without_room_lets_nobody_through() {
    let mut l = PeerLimiter::new(0, 1_000_000, 0);
    assert_eq!(l.try_consume(ip(1), 0), Err(60 * SECOND));
    assert_eq!(l.try_consume(ip(1), 600 * SECOND), Err(60 * SECOND));
    assert_eq!(l.try_consume(PeerAddr::V6(1), 600 * SECOND), Err(60 * SECOND));
}

#[test]
fn addresses_of_both_kinds_differ() {
    let mut l = PeerLimiter::per_minute(1);
    assert!(l.try_consume(PeerAddr::V4(1), 0).is_ok());
    assert!(l.try_consume(PeerAddr::V6(1), 0).is_ok());
    assert_eq!(l.bucket_count(), 2);
    assert!(l.try_consume(PeerAddr::V6(1), 0).is_err());
}

fn names(ids: &[&str]) -> Vec<String> {
    ids.iter().map(|s| s.to_string()).collect()
}

#[test]
fn first_sweep_seeds_unknown_sessions_and_does_not_reap() {
    let mut tracker = ActivityTracker::new();
    let live = names(&["s"]);
    assert!(tracker.sweep(&live, 100 * SECOND, 60 * SECOND).is_empty());
    assert_eq!(tracker.last_activity(&"s".to_string()), Some(100 * SECOND));
}

#[test]
fn sweep_reaps_idle_session() {
    let mut tracker = ActivityTracker::new();
    let now = 10_000 * SECOND;
    tracker.touch("s".to_string(), now - 3600 * SECOND);
    let to_close = tracker.sweep(&names(&["s"]), now, 60 * SECOND);
    assert_eq!(to_close, names(&["s"]));
    for id in &to_close {
        tracker.forget(id);
    }
    assert_eq!(tracker.len(), 0);
}

#[test]
fn sweep_drops_tracker_entries_for_dead_sessions() {
    let mut tracker = ActivityTracker::new();
    tracker.touch("ghost-session".to_string(), 0);
    assert!(tracker.sweep(&vec![], 0, 60 * SECOND).is_empty());
    assert_eq!(tracker.last_activity(&"ghost-session".to_string()), None);
}

#[test]
fn touch_keeps_active_session_alive() {
    let mut tracker = ActivityTracker::new();
    tracker.touch("s".to_string(), 5);
    assert!(tracker.sweep(&names(&["s"]), 5, 3600 * SECOND).is_empty());
    assert_eq!(tracker.len(), 1);
}

#[test]
fn silent_sessions_are_closed_in_time() {
    let mut tracker = ActivityTracker::new();
    let live = names(&["s"]);
    assert!(tracker.sweep(&live, 10, 5).is_empty());
    assert!(tracker.sweep(&live, 15, 5).is_empty());
    assert_eq!(tracker.sweep(&live, 16, 5), live);
}

#[test]
fn idle_means_longer_than_the_timeout() {
    let mut tracker = ActivityTracker::new();
    tracker.touch("a".to_string(), 10);
    tracker.touch("b".to_string(), 11);
    tracker.touch("c".to_string(), 30);
    assert_eq!(tracker.sweep(&names(&["c", "b", "a", "d"]), 20, 9), names(&["a"]));
    assert_eq!(tracker.len(), 4);
}

fn ctx(max_sessions: usize, limiter: PeerLimiter) -> GateCtx {
    GateCtx { max_sessions, limiter, trust_forwarded_for: false, activity: ActivityTracker::new() }
}

fn dummy() -> PeerAddr {
    PeerAddr::V4(0x0a00_0001)
}

fn other() -> PeerAddr {
    PeerAddr::V4(0x0a00_0002)
}

#[test]
fn passes_through_get_requests() {
    let mut c = ctx(0, PeerLimiter::per_minute(1));
    assert_eq!(gate(&mut c, false, None, dummy(), 0, 0), Verdict::Pass);
    assert_eq!(c.limiter.bucket_count(), 0);
}

#[test]
fn passes_through_post_with_session_id() {
    let mut c = ctx(0, PeerLimiter::per_minute(1));
    assert_eq!(gate(&mut c, true, Some(b"fake-session-id"), dummy(), 0, 7), Verdict::Pass);
    assert_eq!(c.activity.last_activity(&"fake-session-id".to_string()), Some(7));
    assert_eq!(gate(&mut c, true, Some(b"odd\xff"), dummy(), 0, 8), Verdict::Pass);
    assert_eq!(c.activity.len(), 1);
}

#[test]
fn rejects_initialize_when_session_cap_reached() {
    let mut c = ctx(0, PeerLimiter::per_minute(100));
    let verdict = gate(&mut c, true, None, dummy(), 0, 0);
    assert_eq!(verdict, Verdict::SessionCap);
    let rejection = verdict.rejection().expect("a rejection");
    assert_eq!(rejection.status, 503);
    assert_eq!(rejection.retry_after, "5");
    assert_eq!(rejection.body, "session cap reached");
    assert_eq!(c.limiter.bucket_count(), 0);
}

#[test]
fn rate_limits_initialize_per_peer() {
    let mut c = ctx(1000, limiter(2.0, 0.001, 1024));
    for _ in 0..2 {
        assert_eq!(gate(&mut c, true, None, dummy(), 0, 0), Verdict::Pass);
    }
    let verdict = gate(&mut c, true, None, dummy(), 0, 0);
    assert_eq!(verdict, Verdict::RateLimited(1000));
    let rejection = verdict.rejection().expect("a rejection");
    assert_eq!(rejection.status, 429);
    assert_eq!(rejection.retry_after, "1000");
    assert_eq!(rejection.body, "initialize rate limit");
    assert_eq!(gate(&mut c, true, None, other(), 0, 0), Verdict::Pass);
    assert!(Verdict::Pass.rejection().is_none());
}

#[test]
fn retry_is_never_at_once() {
    let mut c = ctx(1000, limiter(1.0, 1000.0, 1024));
    assert_eq!(gate(&mut c, true, None, dummy(), 0, 0), Verdict::Pass);
    assert_eq!(gate(&mut c, true, None, dummy(), 0, 0), Verdict::RateLimited(1));
}

const SOCKET: PeerAddr = PeerAddr::V4(0x0a00_0005);

/// The address that a hop names, for the hops that these tests write.
fn parsed(hop: &str) -> Option<PeerAddr> {
    let octets: Vec<u8> = hop.split('.').map(|n| n.parse().ok()).collect::<Option<_>>()?;
    let octets: [u8; 4] = octets.try_into().ok()?;
    Some(PeerAddr::V4(u32::from_be_bytes(octets)))
}

#[test]
fn peer_ip_uses_socket_addr_by_default() {
    assert_eq!(peer_ip(None, SOCKET, false), SOCKET);
    assert_eq!(peer_ip(None, SOCKET, true), SOCKET);
}

#[test]
fn peer_ip_ignores_xff_when_untrusted() {
    let hop = forwarded_hop(b"1.2.3.4").expect("a hop");
    assert_eq!(parsed(&hop), Some(PeerAddr::V4(0x0102_0304)));
    assert_eq!(peer_ip(parsed(&hop), SOCKET, false), SOCKET);
}

#[test]
fn peer_ip_uses_xff_first_hop_when_trusted() {
    let hop = forwarded_hop(b"1.2.3.4, 5.6.7.8").expect("a hop");
    assert_eq!(hop, "1.2.3.4");
    assert_eq!(peer_ip(parsed(&hop), SOCKET, true), PeerAddr::V4(0x0102_0304));
}

#[test]
fn peer_ip_falls_back_to_socket_when_xff_unparseable() {
    let hop = forwarded_hop(b"garbage").expect("a hop");
    assert_eq!(hop, "garbage");
    assert_eq!(parsed(&hop), None);
    assert_eq!(peer_ip(parsed(&hop), SOCKET, true), SOCKET);
}

#[test]
fn hops_are_trimmed_text() {
    assert_eq!(forwarded_hop(b" \t a b \t, c"), Some("a b".to_string()));
    assert_eq!(forwarded_hop(b""), Some(String::new()));
    assert_eq!(forwarded_hop(b" , x"), Some(String::new()));
    assert_eq!(forwarded_hop(b"1.2.3.4, \xff"), None);
    assert_eq!(header_text(b"a\tb~"), Some("a\tb~".to_string()));
    assert_eq!(header_text(b"a\x7f"), None);
    assert_eq!(header_text(b"a\nb"), None);
}

#[test]
fn errors_have_messages_and_classes() {
    let s = || "x".to_string();
    let cases = vec![
        (AppError::Io(s()), "I/O error: x", false),
        (AppError::Regex(s()), "Regex error: x", true),
        (AppError::GrepRegex(s()), "Grep regex error: x", true),
        (AppError::Ignore(s()), "Ignore error: x", false),
        (AppError::InvalidRequest(s()), "Invalid request: x", true),
        (AppError::NotFound(s()), "Not found: x", true),
        (AppError::Internal(s()), "Internal error: x", false),
        (AppError::OutOfScope(s()), "Out of project scope: x", true),
        (AppError::Axum(s()), "Server error: x", false),
    ];
    for (err, message, client) in cases {
        assert_eq!(err.message(), message);
        let data = err.error_data();
        assert_eq!(data.code == ErrorCode::InvalidParams, client);
        assert_eq!(data.message, if client { "invalid_params" } else { "internal_error" });
        assert_eq!(data.error, message);
        let result = tool_error(err);
        assert!(result.is_error);
        assert_eq!(result.text, message);
        assert!(result.structured.is_none());
    }
    let data = join_error("panicked".to_string());
    assert_eq!(data.code, ErrorCode::InternalError);
    assert_eq!((data.message.as_str(), data.error.as_str()), ("internal_error", "panicked"));
}

fn scope(root: &str) -> Scope {
    Scope::new(root.as_bytes(), Ok(Resolved { path: root.as_bytes().to_vec(), is_dir: true }))
        .expect("a scope")
}

fn ok(path: &str) -> Result<Vec<u8>, String> {
    Ok(path.as_bytes().to_vec())
}

#[test]
fn check_accepts_path_inside_root() {
    let s = scope("/proj");
    assert_eq!(s.check(b"/proj/a.txt", ok("/proj/a.txt")).expect("inside"), b"/proj/a.txt");
    assert_eq!(s.check(b".", ok("/proj")).expect("the root itself"), b"/proj");
    assert_eq!(s.root(), b"/proj");
}

#[test]
fn check_rejects_path_outside_root() {
    match scope("/proj").check(b"/etc/passwd", ok("/etc/passwd")) {
        Err(AppError::OutOfScope(msg)) => {
            assert_eq!(msg, "/etc/passwd is outside project root /proj")
        }
        other => panic!("expected OutOfScope, got {:?}", other),
    }
}

#[test]
fn check_resolves_symlink_to_outside_root() {
    match scope("/proj").check(b"/proj/link.txt", ok("/outside/secret.txt")) {
        Err(AppError::OutOfScope(_)) => {}
        other => panic!("expected OutOfScope, got {:?}", other),
    }
}

#[test]
fn check_rejects_path_traversal() {
    match scope("/tmp/proj").check(b"/tmp/proj/../..", ok("/")) {
        Err(AppError::OutOfScope(_)) => {}
        other => panic!("expected OutOfScope, got {:?}", other),
    }
}

#[test]
fn check_compares_whole_components() {
    match scope("/proj").check(b"/project/a", ok("/project/a")) {
        Err(AppError::OutOfScope(_)) => {}
        other => panic!("expected OutOfScope, got {:?}", other),
    }
    match scope("/proj").check(b"nope", Err("No such file".to_string())) {
        Err(AppError::NotFound(msg)) => assert_eq!(msg, "nope: No such file"),
        other => panic!("expected NotFound, got {:?}", other),
    }
}

#[test]
fn root_must_exist() {
    match Scope::new(b"/nonexistent/path/here", Err("No such file".to_string())) {
        Err(AppError::Internal(msg)) => {
            assert_eq!(msg, "--project /nonexistent/path/here: No such file")
        }
        other => panic!("expected Internal, got {:?}", other),
    }
}

#[test]
fn root_must_be_a_directory() {
    let resolved = Resolved { path: b"/tmp/not_a_dir".to_vec(), is_dir: false };
    match Scope::new(b"not_a_dir", Ok(resolved)) {
        Err(AppError::Internal(msg)) => {
            assert_eq!(msg, "--project must be a directory: /tmp/not_a_dir")
        }
        other => panic!("expected Internal, got {:?}", other),
    }
}

#[test]
fn paths_are_taken_apart() {
    assert!(within(b"/a//b/./c", b"/a/b"));
    assert!(within(b"/a", b"/"));
    assert!(!within(b"a", b"/"));
    assert!(!within(b"/a", b"/a/b"));
    assert_eq!(file_name(b"/a/b/"), Some(b"b".to_vec()));
    assert_eq!(file_name(b"/"), None);
    assert_eq!(file_name(b"/a/.."), None);
    assert_eq!(extension(b"/a/b.tar.gz"), Some(b"gz".to_vec()));
    assert_eq!(extension(b"/a/.b"), None);
    assert_eq!(extension(b"/a/b."), Some(b"".to_vec()));
    assert_eq!(join(b"/a", b"b"), b"/a/b");
    assert_eq!(join(b"/a/", b"b"), b"/a/b");
    assert_eq!(join(b"", b"b"), b"b");
}

#[test]
fn byte_strings_are_sorted() {
    let items: Vec<Vec<u8>> = ["b", "", "ab", "a", "\u{e9}", "b"]
        .iter()
        .map(|s| s.as_bytes().to_vec())
        .collect();
    let sorted = sort_bytes(items);
    let want: Vec<Vec<u8>> = ["", "a", "ab", "b", "b", "\u{e9}"]
        .iter()
        .map(|s| s.as_bytes().to_vec())
        .collect();
    assert_eq!(sorted, want);
}

const DIR: &[u8] = b"/memories";

fn entries(list: &[&str]) -> Result<Vec<MemoryEntry>, String> {
    let named = |s: &&str| MemoryEntry { name: s.as_bytes().to_vec(), is_file: true };
    Ok(list.iter().map(named).collect())
}

#[test]
fn load_memory_returns_index_when_memory_md_present() {
    assert_eq!(memory_target(DIR, true, None).expect("a target"), b"/memories/MEMORY.md");
    let index = Some(Ok("# index\n- foo\n".to_string()));
    let out = load_memory(DIR, true, None, index, &entries(&["MEMORY.md", "foo.md"]))
        .expect("the index")
        .content;
    assert!(out.starts_with("# index"), "got {:?}", out);
}

#[test]
fn load_memory_lists_md_files_when_no_index() {
    let out = load_memory(DIR, true, None, None, &entries(&["b.md", "ignore.txt", "a.md"]))
        .expect("a listing")
        .content;
    assert!(out.contains("- a.md"), "got {}", out);
    assert!(out.contains("- b.md"), "got {}", out);
    assert!(!out.contains("ignore.txt"), "got {}", out);
    assert_eq!(
        out,
        "# Memory dir contents\n\n- a.md\n- b.md\n\nUse `memories(name=\"...\")` to load a \
         specific memory, or create a `MEMORY.md` index at the top level.\n"
    );
}

#[test]
fn load_memory_returns_named_file() {
    assert_eq!(
        memory_target(DIR, true, Some("user_role.md")).expect("a target"),
        b"/memories/user_role.md"
    );
    let file = Some(Ok("data scientist\n".to_string()));
    let out = load_memory(DIR, true, Some("user_role.md"), file, &entries(&[]))
        .expect("the memory")
        .content;
    assert_eq!(out, "data scientist\n");
}

#[test]
fn load_memory_rejects_path_traversal() {
    for bad in ["../etc/passwd", "sub/foo.md", "..\\foo", "..", ""] {
        match load_memory(DIR, true, Some(bad), Some(Ok("ok\n".to_string())), &entries(&[])) {
            Err(AppError::InvalidRequest(msg)) => assert_eq!(
                msg,
                format!("memory name must be a plain filename, got: {:?}", bad)
            ),
            other => panic!("expected rejection for {:?}, got {:?}", bad, other),
        }
        assert!(memory_target(DIR, true, Some(bad)).is_err());
        assert!(!is_plain(bad));
    }
    for good in ["a", ".a.b.", "a b", "\u{e9}.md"] {
        assert!(is_plain(good), "{:?}", good);
    }
    assert!(!is_plain("a..b"));
}

#[test]
fn load_memory_errors_on_missing_dir() {
    match load_memory(b"/nope", false, None, None, &entries(&[])) {
        Err(AppError::NotFound(msg)) => assert_eq!(msg, "memory dir does not exist: /nope"),
        other => panic!("expected NotFound, got {:?}", other),
    }
}

#[test]
fn load_memory_reports_what_is_missing() {
    match load_memory(DIR, true, Some("a.md"), None, &entries(&["b.md"])) {
        Err(AppError::NotFound(msg)) => assert_eq!(msg, "memory not found: a.md"),
        other => panic!("expected NotFound, got {:?}", other),
    }
    match load_memory(DIR, true, Some("a.md"), Some(Err("locked".to_string())), &entries(&[])) {
        Err(AppError::Io(msg)) => assert_eq!(msg, "locked"),
        other => panic!("expected Io, got {:?}", other),
    }
    match load_memory(DIR, true, None, None, &Err("locked".to_string())) {
        Err(AppError::Io(msg)) => assert_eq!(msg, "locked"),
        other => panic!("expected Io, got {:?}", other),
    }
    let out = load_memory(DIR, true, None, None, &entries(&["a.txt"])).expect("a listing").content;
    assert_eq!(
        out,
        "# Memory dir contents\n\n(no .md files found; configure MEMORY.md or add memory files)\n"
    );
    let odd = Ok(vec![
        MemoryEntry { name: b"\xff.md".to_vec(), is_file: true },
        MemoryEntry { name: b"a.md".to_vec(), is_file: true },
        MemoryEntry { name: b"sub.md".to_vec(), is_file: false },
    ]);
    let out = load_memory(DIR, true, None, None, &odd).expect("a listing").content;
    assert!(out.starts_with("# Memory dir contents\n\n- a.md\n\nUse"), "got {}", out);
}

#[test]
fn directories_are_no_memories() {
    let sub = Ok(vec![MemoryEntry { name: b"sub.md".to_vec(), is_file: false }]);
    let out = load_memory(DIR, true, None, None, &sub).expect("a listing").content;
    assert_eq!(
        out,
        "# Memory dir contents\n\n(no .md files found; configure MEMORY.md or add memory files)\n"
    );
}

/// The extensions that a JSON value spells.
fn extensions_of(json: &str) -> StringOrVec {
    let value: serde_json::Value = serde_json::from_str(json).expect("JSON");
    match &value["file_extensions"] {
        serde_json::Value::String(s) => StringOrVec::One(s.clone()),
        serde_json::Value::Array(items) => StringOrVec::Many(
            items.iter().map(|i| i.as_str().expect("a string").to_string()).collect(),
        ),
        other => panic!("neither a string nor an array: {:?}", other),
    }
}

#[test]
fn grep_args_accepts_file_extensions_as_string() {
    let json = r#"{"directory":"/tmp","pattern":"x","file_extensions":"sql"}"#;
    assert_eq!(extensions_of(json).into_vec(), vec!["sql".to_string()]);
}

#[test]
fn grep_args_accepts_file_extensions_as_array() {
    let json = r#"{"directory":"/tmp","pattern":"x","file_extensions":["rs","toml"]}"#;
    assert_eq!(extensions_of(json).into_vec(), vec!["rs".to_string(), "toml".to_string()]);
}

fn grep_args(output_mode: &str) -> GrepArgs {
    GrepArgs {
        directory: "/proj/src".to_string(),
        pattern: "x".to_string(),
        before_context: default_zero(),
        after_context: 3,
        max_results: default_max_results(),
        case_insensitive: true,
        include_hidden: default_false(),
        follow_symlinks: true,
        respect_gitignore: default_true(),
        file_extensions: Some(StringOrVec::One("rs".to_string())),
        max_bytes: default_max_bytes(),
        output_mode: output_mode.to_string(),
    }
}

fn server(memory_dir: Option<&[u8]>, extra: Option<&str>) -> CodeMcpServer {
    CodeMcpServer::new(
        memory_dir.map(|d| d.to_vec()),
        extra.map(|e| e.to_string()),
        scope("/proj"),
    )
}

#[test]
fn grep_calls_become_jobs() {
    let s = server(None, None);
    let job = s.grep(grep_args("count"), ok("/proj/src")).expect("a job");
    assert_eq!(job.directory, b"/proj/src");
    assert_eq!(job.root, b"/proj");
    assert_eq!(job.pattern, "x");
    assert_eq!(job.opts.after_context, 3);
    assert_eq!(job.opts.max_results, 100);
    assert_eq!(job.opts.max_bytes, 5 * 1024 * 1024);
    assert!(job.opts.case_insensitive && job.opts.follow_symlinks && job.opts.respect_gitignore);
    assert!(!job.opts.include_hidden);
    assert_eq!(job.opts.file_extensions, vec!["rs".to_string()]);

    let refused = s.grep(grep_args("bogus"), ok("/etc")).expect_err("scope comes first");
    assert!(refused.is_error);
    assert_eq!(
        refused.text,
        "Out of project scope: /etc is outside project root /proj"
    );
    let refused = s.grep(grep_args("bogus"), ok("/proj/src")).expect_err("no such mode");
    assert!(refused.text.starts_with("Invalid request: unknown output_mode 'bogus'"));
    let refused = s.grep(grep_args("count"), Err("gone".to_string())).expect_err("not there");
    assert_eq!(refused.text, "Not found: /proj/src: gone");
}

#[test]
fn answers_hold_nothing_from_outside_the_root() {
    let s = server(None, None);
    let items = |resolved: &str| {
        vec![GrepItem {
            entry: WalkEntry::Found { path: b"/proj/link/s.rs".to_vec(), is_file: true },
            resolved: ok(resolved),
            search: FileSearch {
                events: vec![SearchEvent::Match {
                    line_number: Some(1),
                    bytes: b"needle\n".to_vec(),
                }],
                failure: None,
            },
        }]
    };
    for mode in ["content", "files_with_matches", "count"] {
        let job = s.grep(grep_args(mode), ok("/proj")).expect("a job");
        let answer = job.answer(&items("/out/s.rs"));
        assert!(!answer.is_error);
        assert_eq!(answer.text, "");
        assert_eq!(answer.structured.expect("structure").match_count, Some(0));
        let answer = job.answer(&items("/proj/real/s.rs"));
        assert!(answer.text.contains("/proj/link/s.rs"), "got {}", answer.text);
        assert_eq!(answer.structured.expect("structure").match_count, Some(1));
    }
    let args = |pattern: &str| FindArgs {
        directory: "/proj".to_string(),
        pattern: pattern.to_string(),
        max_results: 7,
        include_hidden: false,
        respect_gitignore: true,
        match_basename: true,
    };
    let entry = |resolved: &str| {
        vec![FindItem {
            entry: WalkEntry::Found { path: b"/proj/link/s.rs".to_vec(), is_file: true },
            resolved: ok(resolved),
        }]
    };
    let job = s.find(args("^s"), ok("/proj")).expect("a job");
    assert_eq!(job.answer(&entry("/out/s.rs")).text, "");
    assert_eq!(job.answer(&entry("/proj/s.rs")).text, "/proj/link/s.rs\n");
    let job = s.find(args("("), ok("/proj")).expect("a job");
    let refused = job.answer(&entry("/proj/s.rs"));
    assert!(refused.is_error);
    assert!(refused.text.starts_with("Regex error: "), "got {}", refused.text);
}

#[test]
fn other_calls_become_jobs() {
    let s = server(Some(b"/memories"), None);
    let args = FindArgs {
        directory: "src".to_string(),
        pattern: "y".to_string(),
        max_results: 7,
        include_hidden: true,
        respect_gitignore: false,
        match_basename: false,
    };
    let job = s.find(args, ok("/proj/src")).expect("a job");
    assert_eq!((job.opts.max_results, job.opts.include_hidden), (7, true));
    assert_eq!((job.opts.respect_gitignore, job.opts.match_basename), (false, false));
    assert_eq!((job.directory, job.pattern), (b"/proj/src".to_vec(), "y".to_string()));
    assert_eq!(job.root, b"/proj");

    let cat_args = || CatArgs {
        file_path: "a".to_string(),
        offset: 3,
        max_lines: default_max_lines(),
        max_bytes: 9,
    };
    let job = s.cat(cat_args(), ok("/proj/a")).expect("a job");
    assert_eq!((job.offset, job.max_lines, job.max_bytes), (3, 2000, 9));
    assert_eq!(job.file_path, b"/proj/a");
    assert!(s.cat(cat_args(), ok("/etc/passwd")).is_err());

    let job = s.memories(MemoriesArgs { name: Some("a.md".to_string()) }).expect("a job");
    assert_eq!((job.dir, job.name), (b"/memories".to_vec(), Some("a.md".to_string())));
    let refused = server(None, None).memories(MemoriesArgs { name: None }).expect_err("no dir");
    assert!(refused.is_error);
    assert_eq!(refused.text, "memory dir not configured; start server with --memory-dir <path>");
}

#[test]
fn instructions_tell_what_there_is() {
    let plain = server(None, None).instructions();
    assert!(plain.starts_with("code-mcp: filesystem search and read tools.\n\nAll paths are scoped to the project root: /proj. Paths outside this directory (or symlinks resolving outside it) are rejected with `invalid_params`.\n\nRegex flavor: "));
    assert!(plain.ends_with("plus optional `max_lines` and `max_bytes` caps."));
    assert!(plain.contains("\n- `content`: returns matching lines"));
    let full = server(Some(b"/memories"), Some("be kind")).instructions();
    assert!(full.starts_with(&plain));
    assert!(full.contains("memory directory configured"));
    assert!(full.ends_with("\n\n--- project instructions ---\n\nbe kind"));
}

#[test]
fn defaults_are_those_of_the_tools() {
    assert!(default_file_extensions().is_none());
    assert_eq!(default_output_mode(), "files_with_matches");
    assert_eq!(default_max_bytes(), 5_242_880);
    assert_eq!(default_max_lines(), 2000);
}
