//! What `cat` answers: which lines make a page, and what is said of a page that was cut.

use vstd::prelude::*;
use vstd::utf8::*;

use crate::laws;
use crate::text;
use crate::tools::cat::{Cap, CatReader};

verus! {

/// The lines of a file from line `offset` on.
pub open spec fn lines_from(lines: Seq<Seq<char>>, offset: int) -> Seq<Seq<char>> {
    if offset <= lines.len() {
        lines.subrange(offset, lines.len() as int)
    } else {
        Seq::empty()
    }
}

/// The lines that a page may show: those from line `offset` on, as many as were asked for.
pub open spec fn lines_for(lines: Seq<Seq<char>>, offset: int, max_lines: int) -> Seq<Seq<char>> {
    lines_from(lines, offset).take(
        laws::grep::least(lines_from(lines, offset).len() as int, max_lines),
    )
}

/// The lines of a page, said twice.
proof fn lemma_lines(lines: Seq<Seq<char>>, offset: usize, max_lines: usize)
    ensures
        crate::tools::cat::window(lines, offset) == lines_from(lines, offset as int),
        crate::tools::cat::head(crate::tools::cat::window(lines, offset), max_lines) == lines_for(
            lines,
            offset as int,
            max_lines as int,
        ),
{
    assert(crate::tools::cat::window(lines, offset) =~= lines_from(lines, offset as int));
    assert(crate::tools::cat::head(lines_from(lines, offset as int), max_lines) =~= lines_for(
        lines,
        offset as int,
        max_lines as int,
    ));
}

/// A page that no cap cuts is the rest of the file, to its end, and it is cut only where it must
/// be: where there are more lines than asked for, or where they take more bytes.
pub proof fn uncut_pages_reach_the_end(
    lines: Seq<Seq<char>>,
    offset: usize,
    max_lines: usize,
    max_bytes: usize,
)
    ensures
        ({
            let rest = lines_from(lines, offset as int);
            let page = crate::tools::cat::page(lines, offset, max_lines, max_bytes);
            &&& page.1 is None <==> rest.len() <= max_lines && encode_utf8(rest.flatten()).len()
                <= max_bytes
            &&& page.1 is None ==> page.0 == rest.flatten()
        }),
{
    let rest = lines_from(lines, offset as int);
    lemma_lines(lines, offset, max_lines);
    laws::text::joining_is_flattening(rest);
    laws::text::joining_is_flattening(lines_for(lines, offset as int, max_lines as int));
    if rest.len() <= max_lines {
        assert(lines_for(lines, offset as int, max_lines as int) =~= rest);
    }
}

/// A page that the cap on lines cuts holds as many lines as were asked for, all of them, closed by
/// a newline where that still fits.
pub proof fn pages_cut_by_lines_are_full(
    lines: Seq<Seq<char>>,
    offset: usize,
    max_lines: usize,
    max_bytes: usize,
)
    ensures
        ({
            let page = crate::tools::cat::page(lines, offset, max_lines, max_bytes);
            let whole = lines.subrange(offset as int, offset + max_lines).flatten();
            &&& page.1 == Some(Cap::Lines) <==> offset + max_lines < lines.len() && encode_utf8(
                whole,
            ).len() <= max_bytes
            &&& page.1 == Some(Cap::Lines) ==> page.0 == if (whole.len() == 0 || whole.last()
                != '\n') && encode_utf8(whole).len() < max_bytes {
                whole + seq!['\n']
            } else {
                whole
            }
        }),
{
    let page = crate::tools::cat::page(lines, offset, max_lines, max_bytes);
    let shown = lines_for(lines, offset as int, max_lines as int);
    lemma_lines(lines, offset, max_lines);
    laws::text::joining_is_flattening(shown);
    if offset + max_lines < lines.len() {
        assert(shown =~= lines.subrange(offset as int, offset + max_lines));
        if page.1 == Some(Cap::Lines) {
            laws::text::closing_keeps_to_the_cap(shown.flatten(), max_bytes as int);
        }
    }
}

/// A page that the byte cap cuts is as long as it can be: it is the first `n` lines from its start,
/// joined, where these fit and one line more does not. So the next page, from the line behind
/// these, goes on where this one ends.
pub proof fn pages_cut_by_bytes_are_as_long_as_can_be(
    lines: Seq<Seq<char>>,
    offset: usize,
    max_lines: usize,
    max_bytes: usize,
) -> (n: int)
    requires
        crate::tools::cat::page(lines, offset, max_lines, max_bytes).1 == Some(Cap::Bytes),
    ensures
        0 <= n < max_lines,
        offset + n < lines.len(),
        crate::tools::cat::page(lines, offset, max_lines, max_bytes).0 == lines.subrange(
            offset as int,
            offset + n,
        ).flatten(),
        encode_utf8(lines.subrange(offset as int, offset + n).flatten()).len() <= max_bytes,
        encode_utf8(lines.subrange(offset as int, offset + n + 1).flatten()).len() > max_bytes,
{
    let shown = lines_for(lines, offset as int, max_lines as int);
    lemma_lines(lines, offset, max_lines);
    laws::text::joining_is_flattening(shown);
    let n = laws::text::as_many_lines_as_fit(shown, max_bytes as int);
    assert(shown.take(shown.len() as int) =~= shown);
    assert(n < shown.len());
    assert(shown.take(n) =~= lines.subrange(offset as int, offset + n));
    assert(shown.take(n + 1) =~= lines.subrange(offset as int, offset + n + 1));
    n
}

/// The byte cap cuts a page if and only if the lines it may show take more bytes than asked for,
/// whether or not there are more lines than it may show.
pub proof fn the_byte_cap_comes_first(
    lines: Seq<Seq<char>>,
    offset: usize,
    max_lines: usize,
    max_bytes: usize,
)
    ensures
        crate::tools::cat::page(lines, offset, max_lines, max_bytes).1 == Some(Cap::Bytes)
            <==> encode_utf8(
            lines_for(lines, offset as int, max_lines as int).flatten(),
        ).len() > max_bytes,
{
    lemma_lines(lines, offset, max_lines);
    laws::text::joining_is_flattening(lines_for(lines, offset as int, max_lines as int));
}

/// What is read behind the page makes no difference to it, and what is read before it only by the
/// number of its lines.
pub proof fn pages_depend_on_their_lines_alone(
    before: Seq<Seq<char>>,
    other: Seq<Seq<char>>,
    lines: Seq<Seq<char>>,
    max_lines: usize,
    max_bytes: usize,
)
    requires
        before.len() == other.len(),
        before.len() <= usize::MAX,
    ensures
        crate::tools::cat::page(before + lines, before.len() as usize, max_lines, max_bytes)
            == crate::tools::cat::page(other + lines, before.len() as usize, max_lines, max_bytes),
        crate::tools::cat::page(before + lines, before.len() as usize, max_lines, max_bytes)
            == crate::tools::cat::page(lines, 0, max_lines, max_bytes),
{
    let n = before.len() as usize;
    assert(crate::tools::cat::window(before + lines, n) =~= lines);
    assert(crate::tools::cat::window(other + lines, n) =~= lines);
    assert(crate::tools::cat::window(lines, 0) =~= lines);
}

/// A reader that was given lines holds their page, and wants more as long as no cap cut it.
pub proof fn readers_hold_the_page(reader: CatReader, lines: Seq<Seq<char>>)
    requires
        reader.has_read(lines),
    ensures
        reader.output@ == crate::tools::cat::page(
            lines,
            reader.offset,
            reader.max_lines,
            reader.max_bytes,
        ).0,
        reader.cap == crate::tools::cat::page(
            lines,
            reader.offset,
            reader.max_lines,
            reader.max_bytes,
        ).1,
{
}

/// A page goes out with its text and with whether it was cut, and by what: `line_cap` or
/// `byte_cap`. Nothing else is said of it.
pub proof fn pages_say_what_cut_them(content: Seq<char>, cap: Option<Cap>)
    ensures
        ({
            let response = crate::tools::cat::page_view((content, cap));
            &&& response.content == content
            &&& response.truncated <==> cap is Some
            &&& cap is None ==> response.truncation_reason is None
            &&& cap == Some(Cap::Lines) ==> response.truncation_reason == Some(
                seq!['l', 'i', 'n', 'e', '_', 'c', 'a', 'p'],
            )
            &&& cap == Some(Cap::Bytes) ==> response.truncation_reason == Some(
                seq!['b', 'y', 't', 'e', '_', 'c', 'a', 'p'],
            )
            &&& response.match_count is None
            &&& response.entry_error_count is None
            &&& response.search_error_count is None
            &&& response.first_error is None
        }),
{
    reveal_strlit("byte_cap");
    reveal_strlit("line_cap");
    assert("byte_cap"@ =~= seq!['b', 'y', 't', 'e', '_', 'c', 'a', 'p']);
    assert("line_cap"@ =~= seq!['l', 'i', 'n', 'e', '_', 'c', 'a', 'p']);
}

/// What is read before the first failure counts, line by line, and nothing behind it.
pub proof fn reading_goes_up_to_the_first_failure(lines: Seq<Result<String, String>>)
    ensures
        ({
            let e = crate::tools::cat::first_failure(lines);
            &&& 0 <= e <= lines.len()
            &&& forall|k: int| 0 <= k < e ==> (#[trigger] lines[k]) is Ok
            &&& e < lines.len() ==> lines[e] is Err
            &&& crate::tools::cat::lines_read(lines).len() == lines.len()
            &&& forall|k: int|
                0 <= k < e ==> (#[trigger] crate::tools::cat::lines_read(lines)[k])
                    == lines[k]->Ok_0@
        }),
    decreases lines.len(),
{
    if lines.len() > 0 {
        let front = lines.drop_last();
        reading_goes_up_to_the_first_failure(front);
        let e = crate::tools::cat::first_failure(lines);
        assert forall|k: int| 0 <= k < e implies (#[trigger] lines[k]) is Ok by {
            if k < front.len() && k < crate::tools::cat::first_failure(front) {
                assert(front[k] is Ok);
            }
        }
        if crate::tools::cat::first_failure(front) < front.len() {
            assert(front[crate::tools::cat::first_failure(front)] is Err);
        }
    }
}

/// No page takes more bytes than asked for.
pub proof fn pages_keep_to_the_cap(
    lines: Seq<Seq<char>>,
    offset: usize,
    max_lines: usize,
    max_bytes: usize,
)
    ensures
        encode_utf8(crate::tools::cat::page(lines, offset, max_lines, max_bytes).0).len()
            <= max_bytes,
{
    uncut_pages_reach_the_end(lines, offset, max_lines, max_bytes);
    pages_cut_by_lines_are_full(lines, offset, max_lines, max_bytes);
    let page = crate::tools::cat::page(lines, offset, max_lines, max_bytes);
    if page.1 == Some(Cap::Bytes) {
        let n = pages_cut_by_bytes_are_as_long_as_can_be(lines, offset, max_lines, max_bytes);
    } else if page.1 == Some(Cap::Lines) {
        let whole = lines.subrange(offset as int, offset + max_lines).flatten();
        text::lemma_char_width('\n');
        text::lemma_byte_len_concat(whole, seq!['\n']);
    }
}

} // verus!
