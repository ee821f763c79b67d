//! The lines that `content` mode shows, and which of the lines of one file it shows.

use vstd::prelude::*;
use vstd::utf8::*;

use crate::engines;
use crate::text;
use crate::tools::grep::SearchEvent;
use crate::tools::sinks;

verus! {

/// The number that is shown with a line: the one that the search reported, or 0.
pub open spec fn number_of(line_number: Option<u64>) -> int {
    if line_number is Some {
        line_number->Some_0 as int
    } else {
        0
    }
}

/// Whether `line` is made of `path`, `before`, a numeral that reads as `n`, `after`, and `text`
/// with a newline behind it where it does not end with one.
pub open spec fn is_shown_as(
    line: Seq<char>,
    path: Seq<char>,
    before: Seq<char>,
    n: int,
    after: Seq<char>,
    text: Seq<char>,
) -> bool {
    exists|numeral: Seq<char>| #[trigger]
        crate::laws::text::is_numeral(numeral) && crate::laws::text::reads_as(numeral) == n && (
        numeral.len() > 1 ==> numeral[0] != '0') && line == path + before + numeral + after + (
        if text.len() > 0 && text.last() == '\n' {
            text
        } else {
            text + seq!['\n']
        })
}

/// A matching line is shown as its path, a colon, the number that the search reported, a colon and
/// a blank, and its text: for every number, in digits that read back as it.
pub proof fn matches_are_shown_with_their_number(
    path: Seq<char>,
    line_number: Option<u64>,
    bytes: Seq<u8>,
)
    ensures
        is_shown_as(
            sinks::match_line(path, line_number, bytes),
            path,
            seq![':'],
            number_of(line_number),
            seq![':', ' '],
            engines::lossy_text(bytes),
        ),
{
    reveal_strlit(":");
    reveal_strlit(": ");
    assert(":"@ =~= seq![':']);
    assert(": "@ =~= seq![':', ' ']);
    let numeral = text::decimal(number_of(line_number) as nat);
    crate::laws::text::numerals_read_back(number_of(line_number) as nat);
    crate::laws::text::closing_adds_a_newline_at_most(engines::lossy_text(bytes));
    assert(crate::laws::text::is_numeral(numeral));
}

/// A context line is shown as its path, a hyphen, the number that the search reported, a blank,
/// and its text.
pub proof fn context_is_shown_with_its_number(
    path: Seq<char>,
    line_number: Option<u64>,
    bytes: Seq<u8>,
)
    ensures
        is_shown_as(
            sinks::context_line(path, line_number, bytes),
            path,
            seq!['-'],
            number_of(line_number),
            seq![' '],
            engines::lossy_text(bytes),
        ),
{
    reveal_strlit("-");
    reveal_strlit(" ");
    assert("-"@ =~= seq!['-']);
    assert(" "@ =~= seq![' ']);
    let numeral = text::decimal(number_of(line_number) as nat);
    crate::laws::text::numerals_read_back(number_of(line_number) as nat);
    crate::laws::text::closing_adds_a_newline_at_most(engines::lossy_text(bytes));
    assert(crate::laws::text::is_numeral(numeral));
}

/// A numeral ends where something other than a digit begins.
proof fn lemma_numeral_ends(u: Seq<char>, v: Seq<char>, r: Seq<char>, s: Seq<char>)
    requires
        crate::laws::text::is_numeral(u),
        crate::laws::text::is_numeral(v),
        r.len() > 0,
        s.len() > 0,
        !('0' <= r[0] <= '9'),
        !('0' <= s[0] <= '9'),
        u + r == v + s,
    ensures
        u == v,
{
    let a = u + r;
    let b = v + s;
    if u.len() < v.len() {
        assert(a[u.len() as int] == r[0]);
        assert(b[u.len() as int] == v[u.len() as int]);
    }
    if v.len() < u.len() {
        assert(b[v.len() as int] == s[0]);
        assert(a[v.len() as int] == u[v.len() as int]);
    }
    assert forall|i: int| 0 <= i < u.len() implies u[i] == v[i] by {
        assert(a[i] == b[i]);
    }
    assert(u =~= v);
}

/// One line does not read as two: where the same line is shown for a file twice, it stands for the
/// same number.
proof fn lemma_shown_number(
    line: Seq<char>,
    path: Seq<char>,
    before: Seq<char>,
    m: int,
    n: int,
    after: Seq<char>,
    x: Seq<char>,
    y: Seq<char>,
)
    requires
        after.len() > 0,
        !('0' <= after[0] <= '9'),
        is_shown_as(line, path, before, m, after, x),
        is_shown_as(line, path, before, n, after, y),
    ensures
        m == n,
{
    let close = |t: Seq<char>|
        if t.len() > 0 && t.last() == '\n' {
            t
        } else {
            t + seq!['\n']
        };
    let u = choose|numeral: Seq<char>| #[trigger]
        crate::laws::text::is_numeral(numeral) && crate::laws::text::reads_as(numeral) == m && (
        numeral.len() > 1 ==> numeral[0] != '0') && line == path + before + numeral + after + close(
            x,
        );
    let v = choose|numeral: Seq<char>| #[trigger]
        crate::laws::text::is_numeral(numeral) && crate::laws::text::reads_as(numeral) == n && (
        numeral.len() > 1 ==> numeral[0] != '0') && line == path + before + numeral + after + close(
            y,
        );
    let head = path + before;
    let r = after + close(x);
    let s = after + close(y);
    assert(line =~= head + (u + r));
    assert(line =~= head + (v + s));
    assert((u + r) =~= line.skip(head.len() as int));
    assert((v + s) =~= line.skip(head.len() as int));
    lemma_numeral_ends(u, v, r, s);
}

/// Two lines of a file with different numbers are never shown alike, whatever is in them.
pub proof fn different_numbers_are_shown_differently(
    path: Seq<char>,
    a: u64,
    b: u64,
    x: Seq<u8>,
    y: Seq<u8>,
)
    requires
        a != b,
    ensures
        sinks::match_line(path, Some(a), x) != sinks::match_line(path, Some(b), y),
        sinks::context_line(path, Some(a), x) != sinks::context_line(path, Some(b), y),
{
    matches_are_shown_with_their_number(path, Some(a), x);
    matches_are_shown_with_their_number(path, Some(b), y);
    context_is_shown_with_its_number(path, Some(a), x);
    context_is_shown_with_its_number(path, Some(b), y);
    if sinks::match_line(path, Some(a), x) == sinks::match_line(path, Some(b), y) {
        lemma_shown_number(
            sinks::match_line(path, Some(a), x),
            path,
            seq![':'],
            a as int,
            b as int,
            seq![':', ' '],
            engines::lossy_text(x),
            engines::lossy_text(y),
        );
    }
    if sinks::context_line(path, Some(a), x) == sinks::context_line(path, Some(b), y) {
        lemma_shown_number(
            sinks::context_line(path, Some(a), x),
            path,
            seq!['-'],
            a as int,
            b as int,
            seq![' '],
            engines::lossy_text(x),
            engines::lossy_text(y),
        );
    }
}

/// Whether `line` is how `content` mode shows `event` of the file at `path`.
pub open spec fn shows(line: Seq<char>, path: Seq<char>, event: SearchEvent) -> bool {
    match event {
        SearchEvent::Match { line_number, bytes } => is_shown_as(
            line,
            path,
            seq![':'],
            number_of(line_number),
            seq![':', ' '],
            engines::lossy_text(bytes@),
        ),
        SearchEvent::Context { line_number, bytes } => is_shown_as(
            line,
            path,
            seq!['-'],
            number_of(line_number),
            seq![' '],
            engines::lossy_text(bytes@),
        ),
    }
}

/// Whether `lines` are how `content` mode shows `events`, one by one.
pub open spec fn all_shown(lines: Seq<Seq<char>>, path: Seq<char>, events: Seq<SearchEvent>) -> bool {
    lines.len() == events.len() && forall|i: int|
        0 <= i < lines.len() ==> shows(#[trigger] lines[i], path, events[i])
}

/// How many of `events` are matches.
pub open spec fn matches_among(events: Seq<SearchEvent>) -> nat {
    events.filter(|event: SearchEvent| event is Match).len()
}

/// One more line is one more match, or not.
pub proof fn lemma_matches_among(events: Seq<SearchEvent>)
    ensures
        events.len() == 0 ==> matches_among(events) == 0,
        events.len() > 0 ==> matches_among(events) == matches_among(events.drop_last()) + if events.last()
            is Match {
            1int
        } else {
            0
        },
        matches_among(events) <= events.len(),
        matches_among(events) > 0 <==> exists|i: int|
            0 <= i < events.len() && (#[trigger] events[i]) is Match,
        crate::tools::grep::match_total(events) == matches_among(events),
        crate::tools::grep::has_match(events) <==> matches_among(events) > 0,
    decreases events.len(),
{
    reveal(Seq::filter);
    if events.len() > 0 {
        let rest = events.drop_last();
        lemma_matches_among(rest);
        if exists|i: int| 0 <= i < events.len() && (#[trigger] events[i]) is Match {
            let i = choose|i: int| 0 <= i < events.len() && (#[trigger] events[i]) is Match;
            if i < rest.len() {
                assert(rest[i] is Match);
            }
        }
        if exists|i: int| 0 <= i < rest.len() && (#[trigger] rest[i]) is Match {
            let i = choose|i: int| 0 <= i < rest.len() && (#[trigger] rest[i]) is Match;
            assert(events[i] is Match);
        }
        if events.last() is Match {
            assert(events[events.len() - 1] is Match);
        }
    }
}

/// The line that one step of a search shows.
pub proof fn lemma_line(path: Seq<char>, event: SearchEvent) -> (line: Seq<char>)
    ensures
        shows(line, path, event),
        line == crate::tools::grep::event_line(path, event),
{
    match event {
        SearchEvent::Match { line_number, bytes } => {
            matches_are_shown_with_their_number(path, line_number, bytes@);
        },
        SearchEvent::Context { line_number, bytes } => {
            context_is_shown_with_its_number(path, line_number, bytes@);
        },
    }
    crate::tools::grep::event_line(path, event)
}

/// Whether the line at `i` of a file is refused: because there are results enough before it, if it
/// is a match, or because the lines before it have outgrown the byte cap.
pub open spec fn is_refused(
    lines: Seq<Seq<char>>,
    events: Seq<SearchEvent>,
    i: int,
    start: usize,
    max_results: usize,
    max_bytes: usize,
) -> bool {
    encode_utf8(lines.take(i).flatten()).len() > max_bytes || (events[i] is Match && start
        + matches_among(events.take(i)) >= max_results)
}

/// The search of a file in `content` mode shows its lines in their order up to the first one that
/// is refused, which ends it. The counter is raised for each match shown, and for the one refused.
pub proof fn lines_are_shown_up_to_the_first_refused(
    path: Seq<char>,
    events: Seq<SearchEvent>,
    start: usize,
    max_results: usize,
    max_bytes: usize,
) -> (out: (Seq<Seq<char>>, int))
    requires
        start + events.len() <= usize::MAX,
    ensures
        ({
            let (lines, n) = out;
            let run = crate::tools::grep::content_run(path, events, start, max_results, max_bytes);
            &&& all_shown(lines, path, events)
            &&& 0 <= n <= events.len()
            &&& run.buf == lines.take(n).flatten()
            &&& run.stopped <==> n < events.len()
            &&& n < events.len() ==> is_refused(lines, events, n, start, max_results, max_bytes)
            &&& forall|k: int|
                0 <= k < n ==> !(#[trigger] is_refused(
                    lines,
                    events,
                    k,
                    start,
                    max_results,
                    max_bytes,
                ))
            &&& run.count == start + matches_among(events.take(n)) + if n < events.len()
                && events[n] is Match {
                1int
            } else {
                0
            }
        }),
    decreases events.len(),
{
    if events.len() == 0 {
        let lines = Seq::<Seq<char>>::empty();
        assert(lines.take(0).flatten() =~= Seq::<char>::empty());
        assert(events.take(0) =~= events);
        lemma_matches_among(events);
        (lines, 0)
    } else {
        let before = events.drop_last();
        let (front, m) = lines_are_shown_up_to_the_first_refused(
            path,
            before,
            start,
            max_results,
            max_bytes,
        );
        let run = crate::tools::grep::content_run(path, before, start, max_results, max_bytes);
        let after = crate::tools::grep::content_run(path, events, start, max_results, max_bytes);
        let line = lemma_line(path, events.last());
        let lines = front.push(line);
        let last = before.len() as int;
        assert(all_shown(lines, path, events)) by {
            assert forall|i: int| 0 <= i < lines.len() implies shows(
                #[trigger] lines[i],
                path,
                events[i],
            ) by {
                if i < last {
                    assert(shows(front[i], path, before[i]));
                }
            }
        }
        assert forall|k: int| 0 <= k < last implies #[trigger] is_refused(
            lines,
            events,
            k,
            start,
            max_results,
            max_bytes,
        ) == is_refused(front, before, k, start, max_results, max_bytes) by {
            assert(lines.take(k) =~= front.take(k));
            assert(events.take(k) =~= before.take(k));
        }
        assert(lines.take(last) =~= front);
        assert(front.take(last) =~= front);
        assert(events.take(last) =~= before);
        assert(before.take(last) =~= before);
        lemma_matches_among(before);
        lemma_matches_among(events);
        if run.stopped {
            assert(events.take(m) =~= before.take(m));
            assert(lines.take(m) =~= front.take(m));
            (lines, m)
        } else if after.stopped {
            (lines, last)
        } else {
            front.lemma_flatten_push(line);
            assert(lines.take(last + 1) =~= lines);
            assert(events.take(last + 1) =~= events);
            assert(lines.flatten() =~= front.flatten() + line);
            (lines, last + 1)
        }
    }
}

} // verus!
