//! The `cat` tool: reads a file with pagination by lines and a cap on bytes.
//!
//! Opening and reading the file is the caller's part. A [`CatReader`] takes the lines one by one
//! and tells when it has enough; [`cat`] is the whole tool for lines already read.

use vstd::prelude::*;
use vstd::string::*;

use crate::error::AppError;
use crate::text::{self, close_line_within, len_bytes};
use crate::tools::response::ToolResponse;

verus! {

/// Which cap cut the output.
#[derive(Debug, Clone, Copy, PartialEq, Eq, Structural)]
pub enum Cap {
    Lines,
    Bytes,
}

/// The lines behind the first `offset` ones.
pub open spec fn window(lines: Seq<Seq<char>>, offset: usize) -> Seq<Seq<char>> {
    if offset <= lines.len() {
        lines.skip(offset as int)
    } else {
        Seq::empty()
    }
}

/// The first `max_lines` of `lines`, or as many as there are.
pub open spec fn head(lines: Seq<Seq<char>>, max_lines: usize) -> Seq<Seq<char>> {
    if lines.len() <= max_lines {
        lines
    } else {
        lines.take(max_lines as int)
    }
}

/// The page of a file of `lines` that begins at line `offset`: at most `max_lines` lines and
/// `max_bytes` bytes. It is cut between lines, never inside one.
pub open spec fn page(
    lines: Seq<Seq<char>>,
    offset: usize,
    max_lines: usize,
    max_bytes: usize,
) -> (Seq<char>, Option<Cap>) {
    let rest = window(lines, offset);
    let text = text::concat(head(rest, max_lines));
    if text::byte_len(text) > max_bytes {
        (text::whole_lines(head(rest, max_lines), max_bytes as int), Some(Cap::Bytes))
    } else if rest.len() > max_lines {
        (text::closed_within(text, max_bytes as int), Some(Cap::Lines))
    } else {
        (text, None)
    }
}

/// The name of a cap, as a response reports it.
pub open spec fn cap_name(cap: Option<Cap>) -> Option<Seq<char>> {
    match cap {
        Some(Cap::Lines) => Some("line_cap"@),
        Some(Cap::Bytes) => Some("byte_cap"@),
        None => None,
    }
}

/// The response that carries a page.
pub open spec fn page_view(page: (Seq<char>, Option<Cap>)) -> crate::tools::response::ResponseView {
    crate::tools::response::ResponseView {
        truncated: page.1 is Some,
        truncation_reason: cap_name(page.1),
        ..crate::tools::response::plain_text(page.0)
    }
}

/// Takes the lines of a file one by one, until it has the page that was asked for.
#[derive(Debug)]
pub struct CatReader {
    pub offset: usize,
    pub max_lines: usize,
    pub max_bytes: usize,
    /// How many lines were skipped.
    pub skipped: usize,
    /// How many lines were put out.
    pub taken: usize,
    pub output: String,
    pub cap: Option<Cap>,
}

impl CatReader {
    /// Whether this is the reader once it was given `lines`.
    pub open spec fn has_read(self, lines: Seq<Seq<char>>) -> bool {
        &&& (self.output@, self.cap) == page(lines, self.offset, self.max_lines, self.max_bytes)
        &&& self.cap is None ==> {
            &&& self.skipped == if lines.len() < self.offset {
                lines.len() as int
            } else {
                self.offset as int
            }
            &&& self.taken == window(lines, self.offset).len()
        }
    }

    /// A reader that skips `offset` lines, and then takes up to `max_lines` lines and
    /// `max_bytes` bytes.
    pub fn new(offset: usize, max_lines: usize, max_bytes: usize) -> (reader: Self)
        ensures
            reader.has_read(Seq::empty()),
            reader.offset == offset,
            reader.max_lines == max_lines,
            reader.max_bytes == max_bytes,
    {
        let reader = CatReader {
            offset,
            max_lines,
            max_bytes,
            skipped: 0,
            taken: 0,
            output: String::new(),
            cap: None,
        };
        proof {
            let none = Seq::<Seq<char>>::empty();
            assert(none.skip(0) =~= none);
            assert(text::byte_len(Seq::<char>::empty()) == 0);
        }
        reader
    }

    /// Takes the next line, with its newline. Tells whether the reader wants more.
    pub fn feed(&mut self, line: &str) -> (more: bool)
        ensures
            more == (final(self).cap is None),
            final(self).offset == old(self).offset,
            final(self).max_lines == old(self).max_lines,
            final(self).max_bytes == old(self).max_bytes,
            forall|lines: Seq<Seq<char>>| #[trigger]
                old(self).has_read(lines) ==> final(self).has_read(lines.push(line@)),
    {
        let ghost start = *self;
        if self.cap.is_some() {
            proof {
                assert forall|lines: Seq<Seq<char>>| #[trigger]
                    start.has_read(lines) implies self.has_read(lines.push(line@)) by {
                    lemma_capped_page_stays(
                        lines,
                        line@,
                        self.offset,
                        self.max_lines,
                        self.max_bytes,
                    );
                }
            }
            return false;
        }
        if self.skipped < self.offset {
            self.skipped = self.skipped + 1;
            proof {
                assert forall|lines: Seq<Seq<char>>| #[trigger]
                    start.has_read(lines) implies self.has_read(lines.push(line@)) by {
                    assert(window(lines.push(line@), self.offset) =~= Seq::<Seq<char>>::empty());
                    assert(window(lines, self.offset) =~= Seq::<Seq<char>>::empty());
                }
            }
            return true;
        }
        if self.taken >= self.max_lines {
            close_line_within(&mut self.output, self.max_bytes);
            self.cap = Some(Cap::Lines);
            proof {
                assert forall|lines: Seq<Seq<char>>| #[trigger]
                    start.has_read(lines) implies self.has_read(lines.push(line@)) by {
                    lemma_window_push(lines, line@, self.offset);
                    let rest = window(lines, self.offset);
                    assert(rest.len() == self.max_lines);
                    assert(head(rest.push(line@), self.max_lines) =~= head(rest, self.max_lines));
                }
            }
            return false;
        }
        let used: usize = len_bytes(self.output.as_str());
        let size: usize = len_bytes(line);
        let fits = used <= self.max_bytes && size <= self.max_bytes - used;
        if fits {
            self.output.append(line);
            self.taken = self.taken + 1;
        } else {
            self.cap = Some(Cap::Bytes);
        }
        proof {
            assert forall|lines: Seq<Seq<char>>| #[trigger]
                start.has_read(lines) implies self.has_read(lines.push(line@)) by {
                lemma_window_push(lines, line@, self.offset);
                let rest = window(lines, self.offset);
                assert(rest.push(line@).drop_last() =~= rest);
                text::lemma_byte_len_concat(start.output@, line@);
                if !fits {
                    text::lemma_whole_lines_cut(rest, line@, self.max_bytes as int);
                }
            }
        }
        fits
    }

    /// The page, once the file has ended or the reader wants no more.
    pub fn finish(self) -> (response: ToolResponse)
        ensures
            response@ == page_view((self.output@, self.cap)),
    {
        let truncated = self.cap.is_some();
        let truncation_reason = match self.cap {
            Some(Cap::Lines) => Some("line_cap".to_owned()),
            Some(Cap::Bytes) => Some("byte_cap".to_owned()),
            None => None,
        };
        ToolResponse { truncated, truncation_reason, ..ToolResponse::text(self.output) }
    }
}

/// One more line in the file is one more line in the window, once the window has begun.
proof fn lemma_window_push(lines: Seq<Seq<char>>, line: Seq<char>, offset: usize)
    requires
        offset <= lines.len(),
    ensures
        window(lines.push(line), offset) == window(lines, offset).push(line),
{
    assert(window(lines.push(line), offset) =~= window(lines, offset).push(line));
}

/// What a cap has cut does not change with what comes behind it.
proof fn lemma_capped_page_stays(
    lines: Seq<Seq<char>>,
    line: Seq<char>,
    offset: usize,
    max_lines: usize,
    max_bytes: usize,
)
    requires
        page(lines, offset, max_lines, max_bytes).1 is Some,
    ensures
        page(lines.push(line), offset, max_lines, max_bytes) == page(
            lines,
            offset,
            max_lines,
            max_bytes,
        ),
{
    let rest = window(lines, offset);
    if offset > lines.len() {
        assert(text::byte_len(Seq::<char>::empty()) == 0);
        assert(rest =~= Seq::<Seq<char>>::empty());
    } else {
        lemma_window_push(lines, line, offset);
        let before = head(rest, max_lines);
        let after = head(rest.push(line), max_lines);
        if rest.len() >= max_lines {
            assert(after =~= before);
        } else {
            assert(after.drop_last() =~= rest);
            let text = text::concat(before);
            text::lemma_whole_lines_settled(before, line, max_bytes as int);
            assert(after =~= before.push(line));
            text::lemma_byte_len_concat(text, line);
        }
    }
}

/// The text of each line that was read.
pub open spec fn lines_read(lines: Seq<Result<String, String>>) -> Seq<Seq<char>> {
    lines.map_values(|line: Result<String, String>| line->Ok_0@)
}

/// Where reading first fails, or the number of lines if it never does.
pub open spec fn first_failure(lines: Seq<Result<String, String>>) -> int
    decreases lines.len(),
{
    if lines.len() == 0 {
        0
    } else {
        let before = first_failure(lines.drop_last());
        if before < lines.len() - 1 || lines.last() is Err {
            before
        } else {
            lines.len() as int
        }
    }
}

/// Lines that come behind do not move the first failure.
proof fn lemma_first_failure(lines: Seq<Result<String, String>>, i: int)
    requires
        0 <= i <= lines.len(),
        forall|k: int| 0 <= k < i ==> (#[trigger] lines[k]) is Ok,
    ensures
        i <= first_failure(lines) <= lines.len(),
        i < lines.len() && lines[i] is Err ==> first_failure(lines) == i,
    decreases lines.len(),
{
    if lines.len() > 0 {
        let before = lines.drop_last();
        assert forall|k: int| 0 <= k < i && k < before.len() implies (#[trigger] before[k])
            is Ok by {
            assert(lines[k] is Ok);
        }
        if i < lines.len() {
            lemma_first_failure(before, i);
        } else {
            lemma_first_failure(before, i - 1);
            assert(lines[i - 1] is Ok);
        }
    }
}

/// A page that is capped stays as it is, however many lines follow.
proof fn lemma_page_settled(
    lines: Seq<Seq<char>>,
    i: int,
    offset: usize,
    max_lines: usize,
    max_bytes: usize,
)
    requires
        0 <= i <= lines.len(),
        page(lines.take(i), offset, max_lines, max_bytes).1 is Some,
    ensures
        page(lines, offset, max_lines, max_bytes) == page(
            lines.take(i),
            offset,
            max_lines,
            max_bytes,
        ),
    decreases lines.len() - i,
{
    if i == lines.len() {
        assert(lines.take(i) =~= lines);
    } else {
        lemma_capped_page_stays(lines.take(i), lines[i], offset, max_lines, max_bytes);
        assert(lines.take(i + 1) =~= lines.take(i).push(lines[i]));
        lemma_page_settled(lines, i + 1, offset, max_lines, max_bytes);
    }
}

/// Reads a page of a file. `is_file` tells whether the target is a regular file, and `opened`
/// what came of reading it: line by line, each with its newline, up to the first failure.
///
/// A target that is missing or no regular file is an invalid request. A failure matters only if
/// it comes before the page is settled.
pub fn cat(
    is_file: bool,
    opened: &Result<Vec<Result<String, String>>, String>,
    offset: usize,
    max_lines: usize,
    max_bytes: usize,
) -> (outcome: Result<ToolResponse, AppError>)
    ensures
        !is_file ==> (outcome matches Err(err) && err@
            == crate::error::AppErrorView::InvalidRequest(
            "Target is not a file or does not exist"@,
        )),
        is_file && opened is Err ==> (outcome matches Err(err) && err@
            == crate::error::AppErrorView::Io(opened->Err_0@)),
        is_file && opened is Ok ==> ({
            let lines = opened->Ok_0@;
            let e = first_failure(lines);
            let read = page(lines_read(lines.take(e)), offset, max_lines, max_bytes);
            if e < lines.len() && read.1 is None {
                outcome matches Err(err) && err@ == crate::error::AppErrorView::Io(
                    lines[e]->Err_0@,
                )
            } else {
                outcome matches Ok(response) && response@ == page_view(read)
            }
        }),
        outcome matches Ok(response) ==> text::byte_len(response.content@) <= max_bytes,
{
    if !is_file {
        return Err(
            AppError::InvalidRequest("Target is not a file or does not exist".to_owned()),
        );
    }
    let lines = match opened {
        Ok(lines) => lines,
        Err(e) => {
            return Err(AppError::Io(e.clone()));
        },
    };
    let mut reader = CatReader::new(offset, max_lines, max_bytes);
    let ghost e = first_failure(lines@);
    let mut i: usize = 0;
    let mut more = true;
    proof {
        lemma_first_failure(lines@, 0);
        assert(lines_read(lines@.take(e)).take(0) =~= Seq::<Seq<char>>::empty());
    }
    while i < lines.len() && more
        invariant
            i <= e <= lines@.len(),
            e == first_failure(lines@),
            opened == (Ok::<Vec<Result<String, String>>, String>(*lines)),
            is_file,
            more == (reader.cap is None),
            reader.offset == offset,
            reader.max_lines == max_lines,
            reader.max_bytes == max_bytes,
            reader.has_read(lines_read(lines@.take(e)).take(i as int)),
            forall|k: int| 0 <= k < i ==> (#[trigger] lines@[k]) is Ok,
        decreases lines@.len() - i,
    {
        let ghost before = lines_read(lines@.take(e)).take(i as int);
        proof {
            lemma_first_failure(lines@, i as int);
        }
        match &lines[i] {
            Ok(line) => {
                proof {
                    lemma_first_failure(lines@, i + 1);
                    assert(lines_read(lines@.take(e)).take(i + 1) =~= before.push(line@));
                }
                assert(reader.has_read(before));
                more = reader.feed(line.as_str());
            },
            Err(err) => {
                assert(before =~= lines_read(lines@.take(e)));
                return Err(AppError::Io(err.clone()));
            },
        }
        i = i + 1;
    }
    proof {
        let all = lines_read(lines@.take(e));
        if more {
            assert(all.take(i as int) =~= all);
        } else {
            lemma_page_settled(all, i as int, offset, max_lines, max_bytes);
        }
        page_is_capped(all, offset, max_lines, max_bytes);
    }
    Ok(reader.finish())
}

/// The caps are hard: no page takes more bytes than asked for, nor holds more lines.
pub proof fn page_is_capped(
    lines: Seq<Seq<char>>,
    offset: usize,
    max_lines: usize,
    max_bytes: usize,
)
    ensures
        ({
            let shown = page(lines, offset, max_lines, max_bytes);
            &&& text::byte_len(shown.0) <= max_bytes
            &&& head(window(lines, offset), max_lines).len() <= max_lines
            &&& shown.1 is None ==> shown.0 == text::concat(window(lines, offset))
        }),
{
    text::lemma_whole_lines(head(window(lines, offset), max_lines), max_bytes as int);
}

/// A page is cut between lines: where the byte cap cuts it, it holds a number of whole lines from
/// its start.
pub proof fn pages_hold_whole_lines(
    lines: Seq<Seq<char>>,
    offset: usize,
    max_lines: usize,
    max_bytes: usize,
)
    requires
        page(lines, offset, max_lines, max_bytes).1 == Some(Cap::Bytes),
    ensures
        exists|n: int|
            0 <= n < head(window(lines, offset), max_lines).len() && page(
                lines,
                offset,
                max_lines,
                max_bytes,
            ).0 == text::concat(#[trigger] head(window(lines, offset), max_lines).take(n)),
{
    let shown = head(window(lines, offset), max_lines);
    let n = text::lemma_whole_lines_start(shown, max_bytes as int);
    text::lemma_whole_lines(shown, max_bytes as int);
    if n == shown.len() {
        assert(shown.take(n) =~= shown);
    }
    assert(page(lines, offset, max_lines, max_bytes).0 == text::concat(shown.take(n)));
}

/// A page is never marked as cut when nothing is missing, and always when something is.
pub proof fn cut_means_missing(
    lines: Seq<Seq<char>>,
    offset: usize,
    max_lines: usize,
    max_bytes: usize,
)
    ensures
        page(lines, offset, max_lines, max_bytes).1 is None <==> (window(lines, offset).len()
            <= max_lines && text::byte_len(text::concat(window(lines, offset))) <= max_bytes),
{
}

/// Whether a walk through the file from line `offset` on, page by page, meets no byte cap.
pub open spec fn pages_fit(
    lines: Seq<Seq<char>>,
    offset: usize,
    max_lines: usize,
    max_bytes: usize,
) -> bool
    decreases lines.len() - offset,
{
    match page(lines, offset, max_lines, max_bytes).1 {
        None => true,
        Some(Cap::Bytes) => false,
        Some(Cap::Lines) => 0 < max_lines <= usize::MAX - offset && offset < lines.len()
            && pages_fit(lines, (offset + max_lines) as usize, max_lines, max_bytes),
    }
}

/// The pages of a file from line `offset` on, joined: while a page is cut by lines, the next one
/// begins `max_lines` lines further.
pub open spec fn all_pages(
    lines: Seq<Seq<char>>,
    offset: usize,
    max_lines: usize,
    max_bytes: usize,
) -> Seq<char>
    decreases lines.len() - offset,
{
    let shown = page(lines, offset, max_lines, max_bytes);
    if shown.1 == Some(Cap::Lines) && 0 < max_lines <= usize::MAX - offset && offset
        < lines.len() {
        shown.0 + all_pages(lines, (offset + max_lines) as usize, max_lines, max_bytes)
    } else {
        shown.0
    }
}

/// Pagination loses nothing and repeats nothing: the pages of a file, joined, are the file, if
/// every line but the last ends with a newline and no page meets the byte cap.
pub proof fn pages_make_the_file(
    lines: Seq<Seq<char>>,
    offset: usize,
    max_lines: usize,
    max_bytes: usize,
)
    requires
        offset <= lines.len(),
        forall|i: int| 0 <= i < lines.len() - 1 ==> text::ends_line(#[trigger] lines[i]),
        pages_fit(lines, offset, max_lines, max_bytes),
    ensures
        all_pages(lines, offset, max_lines, max_bytes) == text::concat(lines.skip(offset as int)),
    decreases lines.len() - offset,
{
    let rest = window(lines, offset);
    let shown = page(lines, offset, max_lines, max_bytes);
    if shown.1 == Some(Cap::Lines) {
        let next = (offset + max_lines) as usize;
        let first = head(rest, max_lines);
        pages_make_the_file(lines, next, max_lines, max_bytes);
        assert(first.last() == lines[next - 1]);
        assert(text::concat(first) == text::concat(first.drop_last()) + first.last());
        assert(text::ends_line(text::concat(first)));
        assert(rest =~= first + lines.skip(next as int));
        text::lemma_concat_join(first, lines.skip(next as int));
    }
}

} // verus!
