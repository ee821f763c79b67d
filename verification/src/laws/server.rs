//! What clients are told: errors, refusals, instructions, and the responses they get.

use vstd::prelude::*;

use crate::args::{GrepArgs, StringOrVec};
use crate::engines;
use crate::error::{AppError, AppErrorView, ErrorCode};
use crate::paths;
use crate::server;
use crate::tools::options::{GrepOptions, OutputMode};
use crate::tools::response::ToolResponse;

verus! {

/// A path is turned down if and only if it does not resolve, or to a place outside the root. In the
/// first case the client is told what it asked for and why it was not found, and in the second
/// where it leads and what it is outside of.
pub proof fn paths_are_turned_down_for_a_reason(
    root: Seq<u8>,
    input: Seq<char>,
    resolved: Result<Vec<u8>, String>,
)
    ensures
        server::scope_refusal(root, input, resolved) is None <==> resolved is Ok
            && paths::is_within(resolved->Ok_0@, root),
        resolved is Err ==> server::scope_refusal(root, input, resolved) == Some(
            AppErrorView::NotFound(
                engines::lossy_text(vstd::utf8::encode_utf8(input)) + seq![':', ' ']
                    + resolved->Err_0@,
            ),
        ),
        resolved is Ok && !paths::is_within(resolved->Ok_0@, root) ==> server::scope_refusal(
            root,
            input,
            resolved,
        ) == Some(
            AppErrorView::OutOfScope(
                engines::lossy_text(resolved->Ok_0@) + " is outside project root "@
                    + engines::lossy_text(root),
            ),
        ),
{
    reveal_strlit(": ");
    assert(": "@ =~= seq![':', ' ']);
}

/// A word names an output mode if and only if it is one of three.
pub proof fn there_are_three_output_modes(word: Seq<char>)
    ensures
        server::is_mode_name(word) <==> word == "files_with_matches"@ || word == "content"@ || word
            == "count"@,
        OutputMode::FilesWithMatches.name() == "files_with_matches"@,
        OutputMode::Content.name() == "content"@,
        OutputMode::Count.name() == "count"@,
{
    if word == "files_with_matches"@ {
        assert(word == OutputMode::FilesWithMatches.name());
    }
    if word == "content"@ {
        assert(word == OutputMode::Content.name());
    }
    if word == "count"@ {
        assert(word == OutputMode::Count.name());
    }
}

/// Options are what was asked for, one by one. Extensions may be given as one or as several; where
/// none are given there is no restriction.
pub proof fn options_are_what_was_asked_for(opts: GrepOptions, args: GrepArgs)
    requires
        server::grep_options_match(opts, args),
    ensures
        opts.before_context == args.before_context,
        opts.after_context == args.after_context,
        opts.max_results == args.max_results,
        opts.max_bytes == args.max_bytes,
        opts.case_insensitive == args.case_insensitive,
        opts.include_hidden == args.include_hidden,
        opts.follow_symlinks == args.follow_symlinks,
        opts.respect_gitignore == args.respect_gitignore,
        opts.output_mode == OutputMode::Content <==> args.output_mode@ == "content"@,
        opts.output_mode == OutputMode::Count <==> args.output_mode@ == "count"@,
        opts.output_mode == OutputMode::FilesWithMatches <==> args.output_mode@
            == "files_with_matches"@,
        args.file_extensions is None ==> opts.file_extensions@.len() == 0,
        args.file_extensions matches Some(StringOrVec::One(ext)) ==> opts.file_extensions@.len()
            == 1 && opts.file_extensions@[0] == ext,
        args.file_extensions matches Some(StringOrVec::Many(exts)) ==> opts.file_extensions@
            == exts@,
{
    let mode = opts.output_mode;
    if args.output_mode@ == "content"@ {
        crate::tools::options::mode_names_differ(mode, OutputMode::Content);
    }
    if args.output_mode@ == "count"@ {
        crate::tools::options::mode_names_differ(mode, OutputMode::Count);
    }
    if args.output_mode@ == "files_with_matches"@ {
        crate::tools::options::mode_names_differ(mode, OutputMode::FilesWithMatches);
    }
}

/// A message is the label of its error and what went wrong, and the labels tell the errors apart.
pub proof fn messages_say_what_went_wrong(detail: Seq<char>)
    ensures
        AppErrorView::Io(detail).text() == "I/O error: "@ + detail,
        AppErrorView::Regex(detail).text() == "Regex error: "@ + detail,
        AppErrorView::GrepRegex(detail).text() == "Grep regex error: "@ + detail,
        AppErrorView::Ignore(detail).text() == "Ignore error: "@ + detail,
        AppErrorView::InvalidRequest(detail).text() == "Invalid request: "@ + detail,
        AppErrorView::NotFound(detail).text() == "Not found: "@ + detail,
        AppErrorView::Internal(detail).text() == "Internal error: "@ + detail,
        AppErrorView::OutOfScope(detail).text() == "Out of project scope: "@ + detail,
        AppErrorView::Axum(detail).text() == "Server error: "@ + detail,
{
}

/// A client is at fault for what it asks for: a pattern, a request, something missing, a path
/// outside the project. Everything else is the server's.
pub proof fn faults_are_told_apart(detail: Seq<char>)
    ensures
        AppErrorView::Regex(detail).is_client_fault(),
        AppErrorView::GrepRegex(detail).is_client_fault(),
        AppErrorView::InvalidRequest(detail).is_client_fault(),
        AppErrorView::NotFound(detail).is_client_fault(),
        AppErrorView::OutOfScope(detail).is_client_fault(),
        !AppErrorView::Io(detail).is_client_fault(),
        !AppErrorView::Ignore(detail).is_client_fault(),
        !AppErrorView::Internal(detail).is_client_fault(),
        !AppErrorView::Axum(detail).is_client_fault(),
        crate::error::class_name(ErrorCode::InvalidParams) == "invalid_params"@,
        crate::error::class_name(ErrorCode::InternalError) == "internal_error"@,
{
}

/// An error is read as it is: its kind, and its text.
pub proof fn errors_are_read_as_they_are(err: AppError)
    ensures
        match err {
            AppError::Io(s) => err@ == AppErrorView::Io(s@),
            AppError::Regex(s) => err@ == AppErrorView::Regex(s@),
            AppError::GrepRegex(s) => err@ == AppErrorView::GrepRegex(s@),
            AppError::Ignore(s) => err@ == AppErrorView::Ignore(s@),
            AppError::InvalidRequest(s) => err@ == AppErrorView::InvalidRequest(s@),
            AppError::NotFound(s) => err@ == AppErrorView::NotFound(s@),
            AppError::Internal(s) => err@ == AppErrorView::Internal(s@),
            AppError::OutOfScope(s) => err@ == AppErrorView::OutOfScope(s@),
            AppError::Axum(s) => err@ == AppErrorView::Axum(s@),
        },
{
}

/// A response is read as it is: each of its parts, and whether it is there.
pub proof fn responses_are_read_as_they_are(response: ToolResponse)
    ensures
        response@.content == response.content@,
        response@.truncated == response.truncated,
        response@.match_count == response.match_count,
        response@.entry_error_count == response.entry_error_count,
        response@.search_error_count == response.search_error_count,
        response@.truncation_reason is Some <==> response.truncation_reason is Some,
        response@.truncation_reason is Some ==> response@.truncation_reason->Some_0
            == response.truncation_reason->Some_0@,
        response@.first_error is Some <==> response.first_error is Some,
        response@.first_error is Some ==> response@.first_error->Some_0
            == response.first_error->Some_0@,
{
}

/// A plain response carries its text, and says nothing else.
pub proof fn plain_responses_carry_text_alone(content: Seq<char>)
    ensures
        ({
            let response = crate::tools::response::plain_text(content);
            &&& response.content == content
            &&& !response.truncated
            &&& response.truncation_reason is None
            &&& response.match_count is None
            &&& response.entry_error_count is None
            &&& response.search_error_count is None
            &&& response.first_error is None
        }),
{
}

/// What clients are told on connecting names the root, tells of memories if and only if there are
/// any, and ends with the extra instructions, if there are any, behind their heading. Each of these
/// is independent of the others.
pub proof fn instructions_are_made_of_parts(root: Seq<u8>, has_memory_dir: bool, extra: Seq<char>)
    ensures
        server::instructions_text(root, has_memory_dir, Some(extra)) == server::instructions_text(
            root,
            has_memory_dir,
            None,
        ) + server::EXTRA_HEADING@ + extra,
        server::instructions_text(root, true, None) == server::instructions_text(root, false, None)
            + server::MEMORY_GUIDE@,
        server::instructions_text(root, false, None) == server::INTRO@ + server::SCOPE_BEFORE_ROOT@
            + engines::lossy_text(root) + server::SCOPE_AFTER_ROOT@ + server::TOOLS_GUIDE@,
{
    assert(server::instructions_text(root, has_memory_dir, Some(extra))
        =~= server::instructions_text(root, has_memory_dir, None) + server::EXTRA_HEADING@ + extra);
    assert(server::instructions_text(root, true, None) =~= server::instructions_text(
        root,
        false,
        None,
    ) + server::MEMORY_GUIDE@);
    assert(server::instructions_text(root, false, None) =~= server::INTRO@
        + server::SCOPE_BEFORE_ROOT@ + engines::lossy_text(root) + server::SCOPE_AFTER_ROOT@
        + server::TOOLS_GUIDE@);
}

} // verus!
