//! What is done with the lines that a file search reports, one sink per output mode.
//!
//! Searches run side by side and share one counter of results. A sink that needs to count a
//! result is handed `prev`, what the counter held before it was raised for that result.

use vstd::prelude::*;
use vstd::string::*;

use crate::engines::{self, utf8_lossy};
use crate::text::{self, close_line, len_bytes, push_decimal};

verus! {

/// The number that a line without a number is shown with.
pub open spec fn shown_number(line_number: Option<u64>) -> nat {
    match line_number {
        Some(n) => n as nat,
        None => 0,
    }
}

/// A matching line as `content` mode shows it: `path:number: line`.
pub open spec fn match_line(path: Seq<char>, line_number: Option<u64>, bytes: Seq<u8>) -> Seq<char> {
    path + ":"@ + text::decimal(shown_number(line_number)) + ": "@ + text::closed_line(
        engines::lossy_text(bytes),
    )
}

/// A context line as `content` mode shows it: `path-number line`.
pub open spec fn context_line(path: Seq<char>, line_number: Option<u64>, bytes: Seq<u8>) -> Seq<
    char,
> {
    path + "-"@ + text::decimal(shown_number(line_number)) + " "@ + text::closed_line(
        engines::lossy_text(bytes),
    )
}

/// The sink of `content` mode: gathers the lines of one file, under a cap on matches that all
/// searches share and a cap on the bytes of this file's buffer. The byte cap only keeps the
/// buffer small: a line is refused once the buffer has outgrown the cap, so that a refusal never
/// goes without a cut when the buffers are joined under the response's own cap.
#[derive(Debug)]
pub struct MatchSink {
    /// The path as it is shown.
    pub path: String,
    pub buf: String,
    pub max_results: usize,
    pub max_bytes: usize,
}

impl MatchSink {
    /// A sink for the file at `path`.
    pub fn new(path: &[u8], max_results: usize, max_bytes: usize) -> (sink: Self)
        ensures
            sink.path@ == engines::lossy_text(path@),
            sink.buf@ == Seq::<char>::empty(),
            sink.max_results == max_results,
            sink.max_bytes == max_bytes,
    {
        MatchSink { path: utf8_lossy(path), buf: String::new(), max_results, max_bytes }
    }

    /// Whether a match that raised the counter from `prev` is shown.
    pub open spec fn takes(self, prev: usize) -> bool {
        prev < self.max_results && text::byte_len(self.buf@) <= self.max_bytes
    }

    /// Takes a matching line that raised the counter from `prev`. Tells whether the search of
    /// this file goes on: it does if and only if the line was shown.
    pub fn matched(&mut self, prev: usize, line_number: Option<u64>, bytes: &[u8]) -> (more: bool)
        ensures
            more == old(self).takes(prev),
            final(self).buf@ == if more {
                old(self).buf@ + match_line(old(self).path@, line_number, bytes@)
            } else {
                old(self).buf@
            },
            final(self).path == old(self).path,
            final(self).max_results == old(self).max_results,
            final(self).max_bytes == old(self).max_bytes,
    {
        if prev >= self.max_results {
            return false;
        }
        if len_bytes(self.buf.as_str()) > self.max_bytes {
            return false;
        }
        self.push_line(":", line_number, ": ", bytes);
        assert(self.buf@ =~= old(self).buf@ + match_line(old(self).path@, line_number, bytes@));
        true
    }

    /// Takes a context line. Context lines do not count toward `max_results`, but the byte cap
    /// holds for them too. Tells whether the search of this file goes on.
    pub fn context(&mut self, line_number: Option<u64>, bytes: &[u8]) -> (more: bool)
        ensures
            more == (text::byte_len(old(self).buf@) <= old(self).max_bytes),
            final(self).buf@ == if more {
                old(self).buf@ + context_line(old(self).path@, line_number, bytes@)
            } else {
                old(self).buf@
            },
            final(self).path == old(self).path,
            final(self).max_results == old(self).max_results,
            final(self).max_bytes == old(self).max_bytes,
    {
        if len_bytes(self.buf.as_str()) > self.max_bytes {
            return false;
        }
        self.push_line("-", line_number, " ", bytes);
        assert(self.buf@ =~= old(self).buf@ + context_line(old(self).path@, line_number, bytes@));
        true
    }

    /// Appends one shown line.
    fn push_line(&mut self, before: &str, line_number: Option<u64>, after: &str, bytes: &[u8])
        ensures
            final(self).buf@ == old(self).buf@ + old(self).path@ + before@ + text::decimal(
                shown_number(line_number),
            ) + after@ + text::closed_line(engines::lossy_text(bytes@)),
            final(self).path == old(self).path,
            final(self).max_results == old(self).max_results,
            final(self).max_bytes == old(self).max_bytes,
    {
        let number: u64 = match line_number {
            Some(n) => n,
            None => 0,
        };
        let mut line = utf8_lossy(bytes);
        close_line(&mut line);
        self.buf.append(self.path.as_str());
        self.buf.append(before);
        push_decimal(&mut self.buf, number);
        self.buf.append(after);
        self.buf.append(line.as_str());
    }

    /// What this file adds to the output, if anything.
    pub fn into_chunk(self) -> (chunk: Option<String>)
        ensures
            chunk == if self.buf@.len() > 0 {
                Some(self.buf)
            } else {
                None
            },
    {
        if self.buf.as_str().is_empty() {
            None
        } else {
            Some(self.buf)
        }
    }
}

/// The sink of `files_with_matches` mode: only the first match of a file matters.
#[derive(Debug)]
pub struct FileMatchSink {
    pub max_results: usize,
    /// Whether a match was seen.
    pub settled: bool,
    /// Whether the file is listed.
    pub matched_this_file: bool,
}

impl FileMatchSink {
    /// A sink for one file.
    pub fn new(max_results: usize) -> (sink: Self)
        ensures
            sink.max_results == max_results,
            !sink.settled,
            !sink.matched_this_file,
    {
        FileMatchSink { max_results, settled: false, matched_this_file: false }
    }

    /// Takes a match that raised the counter from `prev`; a match behind the first one is
    /// not counted and must not raise the counter. Tells whether the search of this file goes
    /// on: it never does.
    pub fn matched(&mut self, prev: usize) -> (more: bool)
        ensures
            !more,
            final(self).settled,
            final(self).max_results == old(self).max_results,
            final(self).matched_this_file == if old(self).settled {
                old(self).matched_this_file
            } else {
                prev < old(self).max_results
            },
    {
        if !self.settled {
            self.settled = true;
            self.matched_this_file = prev < self.max_results;
        }
        false
    }

    /// Takes a context line, which this mode does not show. The search goes on.
    pub fn context(&self) -> (more: bool)
        ensures
            more,
    {
        true
    }

    /// What the file at `path` adds to the output, if it is listed.
    pub fn into_chunk(self, path: &[u8]) -> (chunk: Option<String>)
        ensures
            crate::tools::response::text_of(chunk) == if self.matched_this_file {
                Some(engines::lossy_text(path@).push('\n'))
            } else {
                None::<Seq<char>>
            },
    {
        if self.matched_this_file {
            let mut line = utf8_lossy(path);
            text::push_newline(&mut line);
            Some(line)
        } else {
            None
        }
    }
}

/// The sink of `count` mode: tallies the matches of one file.
#[derive(Debug)]
pub struct CountSink {
    pub count: usize,
}

impl CountSink {
    /// A sink for one file.
    pub fn new() -> (sink: Self)
        ensures
            sink.count == 0,
    {
        CountSink { count: 0 }
    }

    /// Counts a match. The search goes on.
    pub fn matched(&mut self) -> (more: bool)
        ensures
            more,
            final(self).count == old(self).count.wrapping_add(1),
    {
        self.count = self.count.wrapping_add(1);
        true
    }

    /// Takes a context line, which this mode does not show. The search goes on.
    pub fn context(&self) -> (more: bool)
        ensures
            more,
    {
        true
    }
}

} // verus!
