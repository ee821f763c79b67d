//! The regex, search and walk engines that the tools hand their work to.

use vstd::prelude::*;
use grep_regex::RegexMatcher;
use grep_searcher::Searcher;
use ignore::WalkBuilder;
use regex::Regex;
use std::path::PathBuf;

verus! {

/// A compiled pattern of the `regex` crate.
#[verifier::external_type_specification]
#[verifier::external_body]
pub struct ExRegex(regex::Regex);

/// A line matcher of the `grep-regex` crate.
#[verifier::external_type_specification]
#[verifier::external_body]
pub struct ExRegexMatcher(grep_regex::RegexMatcher);

/// A file searcher of the `grep-searcher` crate.
#[verifier::external_type_specification]
#[verifier::external_body]
pub struct ExSearcher(grep_searcher::Searcher);

/// A directory walk, configured but not begun, of the `ignore` crate.
#[verifier::external_type_specification]
#[verifier::external_body]
pub struct ExWalkBuilder(ignore::WalkBuilder);

/// A path of the operating system.
#[verifier::external_type_specification]
#[verifier::external_body]
pub struct ExPathBuf(std::path::PathBuf);

/// What `String::from_utf8_lossy` makes of `bytes`.
pub uninterp spec fn lossy_text(bytes: Seq<u8>) -> Seq<char>;

/// The `Debug` form of a `str`.
pub uninterp spec fn quoted_text(text: Seq<char>) -> Seq<char>;

/// What `Regex::new` makes of `pattern`: a compiled pattern, or the text of the error.
pub uninterp spec fn compiled_regex(pattern: Seq<char>) -> Result<Regex, Seq<char>>;

/// Whether `Regex::is_match` finds `re` anywhere in `haystack`.
pub uninterp spec fn regex_finds(re: Regex, haystack: Seq<char>) -> bool;

/// What `RegexMatcherBuilder::build` makes of `pattern`, with case ignored where `caseless`:
/// a matcher, or the text of the error.
pub uninterp spec fn compiled_matcher(pattern: Seq<char>, caseless: bool) -> Result<
    RegexMatcher,
    Seq<char>,
>;

/// The searcher that `SearcherBuilder::build` gives for one configuration.
pub uninterp spec fn configured_searcher(
    binary_byte: u8,
    line_number: bool,
    before_context: usize,
    after_context: usize,
) -> Searcher;

/// The walk that a `WalkBuilder` describes for one configuration.
pub uninterp spec fn configured_walk(
    directory: PathBuf,
    hidden: bool,
    git_ignore: bool,
    git_global: bool,
    git_exclude: bool,
    follow_links: bool,
) -> WalkBuilder;

/// `String::from_utf8_lossy`: valid UTF-8 is decoded as it stands; what is not valid is replaced
/// by U+FFFD, in a way that depends on the bytes alone and is not spelled out here.
#[verifier::external_body]
pub(crate) fn utf8_lossy(bytes: &[u8]) -> (text: String)
    ensures
        text@ == lossy_text(bytes@),
        vstd::utf8::valid_utf8(bytes@) ==> text@ == vstd::utf8::decode_utf8(bytes@),
{
    String::from_utf8_lossy(bytes).into_owned()
}

/// `str::from_utf8`: bytes are text if and only if they are valid UTF-8, and then that text.
#[verifier::external_body]
pub(crate) fn utf8_text(bytes: &[u8]) -> (text: Option<String>)
    ensures
        text is Some == vstd::utf8::valid_utf8(bytes@),
        text matches Some(t) ==> t@ == vstd::utf8::decode_utf8(bytes@),
{
    std::str::from_utf8(bytes).ok().map(|t| t.to_owned())
}

/// The `Debug` form of a `str`: the text in quotes, with escapes that depend on it alone and are
/// not spelled out here.
#[verifier::external_body]
pub(crate) fn quoted(text: &str) -> (shown: String)
    ensures
        shown@ == quoted_text(text@),
{
    format!("{text:?}")
}

/// `Regex::new`: the outcome depends on the pattern alone.
#[verifier::external_body]
pub(crate) fn compile_regex(pattern: &str) -> (compiled: Result<Regex, String>)
    ensures
        match compiled {
            Ok(re) => compiled_regex(pattern@) == Ok::<Regex, Seq<char>>(re),
            Err(text) => compiled_regex(pattern@) == Err::<Regex, Seq<char>>(text@),
        },
{
    Regex::new(pattern).map_err(|e| e.to_string())
}

/// `Regex::is_match`: the answer depends on the pattern and the haystack alone.
#[verifier::external_body]
pub(crate) fn regex_is_match(re: &Regex, haystack: &str) -> (found: bool)
    ensures
        found == regex_finds(*re, haystack@),
{
    re.is_match(haystack)
}

/// `RegexMatcherBuilder::build` after `case_insensitive`: the outcome depends on the pattern and
/// on that flag alone. What a matcher matches is left unsaid, and with it that the flag does what
/// an inline `(?i)` at the start of the pattern does.
#[verifier::external_body]
pub(crate) fn compile_matcher(pattern: &str, caseless: bool) -> (compiled: Result<
    RegexMatcher,
    String,
>)
    ensures
        match compiled {
            Ok(m) => compiled_matcher(pattern@, caseless) == Ok::<RegexMatcher, Seq<char>>(m),
            Err(text) => compiled_matcher(pattern@, caseless) == Err::<RegexMatcher, Seq<char>>(
                text@,
            ),
        },
{
    let mut builder = grep_regex::RegexMatcherBuilder::new();
    builder.case_insensitive(caseless);
    builder.build(pattern).map_err(|e| e.to_string())
}

/// `SearcherBuilder::build` after the four settings named by the parameters: the searcher is
/// fresh and holds this configuration and nothing else.
#[verifier::external_body]
pub(crate) fn new_searcher(
    binary_byte: u8,
    line_number: bool,
    before_context: usize,
    after_context: usize,
) -> (searcher: Searcher)
    ensures
        searcher == configured_searcher(binary_byte, line_number, before_context, after_context),
{
    grep_searcher::SearcherBuilder::new()
        .binary_detection(grep_searcher::BinaryDetection::quit(binary_byte))
        .line_number(line_number)
        .before_context(before_context)
        .after_context(after_context)
        .build()
}

/// `WalkBuilder::new` and the five settings named by the parameters: a description of the walk,
/// which touches no file yet.
#[verifier::external_body]
pub(crate) fn new_walk(
    directory: &PathBuf,
    hidden: bool,
    git_ignore: bool,
    git_global: bool,
    git_exclude: bool,
    follow_links: bool,
) -> (walk: WalkBuilder)
    ensures
        walk == configured_walk(
            *directory,
            hidden,
            git_ignore,
            git_global,
            git_exclude,
            follow_links,
        ),
{
    let mut walk = WalkBuilder::new(directory);
    walk.hidden(hidden).git_ignore(git_ignore).git_global(git_global);
    walk.git_exclude(git_exclude).follow_links(follow_links);
    walk
}

} // verus!
