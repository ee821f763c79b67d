//! [`ToolResponse`], what every tool returns.

use vstd::prelude::*;

use crate::error::{tool_error, AppError};

verus! {

/// The text of a tool's answer, and what a client may want to know about it without reading the
/// text.
#[derive(Debug)]
pub struct ToolResponse {
    /// The text content of the tool result.
    pub content: String,
    /// Whether the output was truncated due to a size cap.
    pub truncated: bool,
    /// If truncated, the reason (`byte_cap`, `line_cap` or `max_results`).
    pub truncation_reason: Option<String>,
    /// Number of matches found (grep / find).
    pub match_count: Option<usize>,
    /// Number of walker entry errors encountered.
    pub entry_error_count: Option<usize>,
    /// Number of search errors encountered (grep only).
    pub search_error_count: Option<usize>,
    /// First error message, if any errors occurred.
    pub first_error: Option<String>,
}

/// A [`ToolResponse`] with its texts as sequences of characters.
#[verifier::ext_equal]
pub struct ResponseView {
    pub content: Seq<char>,
    pub truncated: bool,
    pub truncation_reason: Option<Seq<char>>,
    pub match_count: Option<usize>,
    pub entry_error_count: Option<usize>,
    pub search_error_count: Option<usize>,
    pub first_error: Option<Seq<char>>,
}

/// The characters of an optional text.
pub open spec fn text_of(s: Option<String>) -> Option<Seq<char>> {
    match s {
        Some(t) => Some(t@),
        None => None,
    }
}

impl View for ToolResponse {
    type V = ResponseView;

    open spec fn view(&self) -> ResponseView {
        ResponseView {
            content: self.content@,
            truncated: self.truncated,
            truncation_reason: text_of(self.truncation_reason),
            match_count: self.match_count,
            entry_error_count: self.entry_error_count,
            search_error_count: self.search_error_count,
            first_error: text_of(self.first_error),
        }
    }
}

/// The response that carries `content` and nothing else.
pub open spec fn plain_text(content: Seq<char>) -> ResponseView {
    ResponseView {
        content,
        truncated: false,
        truncation_reason: None,
        match_count: None,
        entry_error_count: None,
        search_error_count: None,
        first_error: None,
    }
}

/// A tool's answer as the protocol carries it.
#[derive(Debug)]
pub struct CallToolResult {
    /// The text block.
    pub text: String,
    /// The structured content, if any: the text and everything known about it.
    pub structured: Option<ToolResponse>,
    /// Whether the call failed.
    pub is_error: bool,
}

impl ToolResponse {
    /// A response carrying just text content, with no truncation or match metadata.
    pub fn text(content: String) -> (response: Self)
        ensures
            response@ == plain_text(content@),
    {
        ToolResponse {
            content,
            truncated: false,
            truncation_reason: None,
            match_count: None,
            entry_error_count: None,
            search_error_count: None,
            first_error: None,
        }
    }

    /// The protocol's form of this response: the text goes into the text block, and the text
    /// plus the metadata into the structured content, so that clients that prefer structured
    /// output still get the actual content.
    pub fn into_call_tool_result(self) -> (result: CallToolResult)
        ensures
            !result.is_error,
            result.text@ == self.content@,
            result.structured == Some(self),
    {
        CallToolResult { text: self.content.clone(), structured: Some(self), is_error: false }
    }
}

/// What a client is told of a tool's outcome.
pub fn call_result(outcome: Result<ToolResponse, AppError>) -> (result: CallToolResult)
    ensures
        result.is_error == (outcome is Err),
        outcome matches Ok(r) ==> result.text@ == r.content@ && result.structured == Some(r),
        outcome matches Err(e) ==> result.text@ == e@.text() && result.structured is None,
{
    match outcome {
        Ok(r) => r.into_call_tool_result(),
        Err(e) => tool_error(e),
    }
}

} // verus!
