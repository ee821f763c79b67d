//! Numerals, line ends, joined pieces and cut text.

use vstd::prelude::*;
use vstd::utf8::*;

use crate::text;

verus! {

/// The number that a numeral stands for, read from left to right.
pub open spec fn reads_as(numeral: Seq<char>) -> int
    decreases numeral.len(),
{
    if numeral.len() == 0 {
        0
    } else {
        reads_as(numeral.drop_last()) * 10 + (numeral.last() as int - '0' as int)
    }
}

/// Whether `numeral` is made of the digits `0` to `9`.
pub open spec fn is_numeral(numeral: Seq<char>) -> bool {
    numeral.len() > 0 && forall|i: int|
        0 <= i < numeral.len() ==> '0' <= #[trigger] numeral[i] <= '9'
}

/// A number is written in digits that read back as that number, and without a leading zero.
pub proof fn numerals_read_back(n: nat)
    ensures
        is_numeral(text::decimal(n)),
        reads_as(text::decimal(n)) == n,
        n >= 10 ==> text::decimal(n).len() > 1,
        text::decimal(n).len() > 1 ==> text::decimal(n)[0] != '0',
    decreases n,
{
    let d = text::decimal(n);
    if n < 10 {
        assert(d.drop_last() =~= Seq::<char>::empty());
        assert(reads_as(d.drop_last()) == 0);
    } else {
        let front = text::decimal(n / 10);
        numerals_read_back(n / 10);
        assert(d.drop_last() =~= front);
        assert forall|i: int| 0 <= i < d.len() implies '0' <= #[trigger] d[i] <= '9' by {
            if i < front.len() {
                assert(d[i] == front[i]);
            }
        }
        assert(d[0] == front[0]);
        if front.len() == 1 {
            assert(front.drop_last() =~= Seq::<char>::empty());
            assert(reads_as(front.drop_last()) == 0);
            assert(reads_as(front) == front.last() as int - '0' as int);
        }
    }
}

/// Different numbers are written differently.
pub proof fn numerals_differ(a: nat, b: nat)
    requires
        text::decimal(a) == text::decimal(b),
    ensures
        a == b,
{
    numerals_read_back(a);
    numerals_read_back(b);
}

/// To close a line is to see that it ends with one newline: one is added where there is none, and
/// nothing else changes.
pub proof fn closing_adds_a_newline_at_most(s: Seq<char>)
    ensures
        text::closed_line(s).len() > 0,
        text::closed_line(s).last() == '\n',
        s.len() > 0 && s.last() == '\n' ==> text::closed_line(s) == s,
        s.len() == 0 || s.last() != '\n' ==> text::closed_line(s) == s + seq!['\n'],
        text::ends_line(s) <==> s.len() > 0 && s[s.len() - 1] == '\n',
{
    assert(s.push('\n') =~= s + seq!['\n']);
}

/// Splitting off the first of several pieces.
proof fn lemma_concat_first(pieces: Seq<Seq<char>>)
    requires
        pieces.len() > 0,
    ensures
        text::concat(pieces) == pieces[0] + text::concat(pieces.skip(1)),
{
    let first = seq![pieces[0]];
    assert(pieces =~= first + pieces.skip(1));
    text::lemma_concat_join(first, pieces.skip(1));
    assert(first.drop_last() =~= Seq::<Seq<char>>::empty());
    assert(text::concat(first.drop_last()) =~= Seq::<char>::empty());
    assert(text::concat(first) =~= pieces[0]);
}

/// Joining puts the pieces one behind the other, all of them and nothing else.
pub proof fn joining_is_flattening(pieces: Seq<Seq<char>>)
    ensures
        text::concat(pieces) == pieces.flatten(),
    decreases pieces.len(),
{
    if pieces.len() > 0 {
        lemma_concat_first(pieces);
        assert(pieces.skip(1) =~= pieces.drop_first());
        joining_is_flattening(pieces.drop_first());
    }
}

/// Texts are taken over one by one, as they are.
pub proof fn texts_are_taken_over(v: Seq<String>)
    ensures
        text::texts_of(v).len() == v.len(),
        forall|i: int| 0 <= i < v.len() ==> #[trigger] text::texts_of(v)[i] == v[i]@,
{
}

/// Whether the first `k` characters of `s` take at most `n` bytes, and one more would take more.
pub open spec fn is_longest_fit(s: Seq<char>, k: int, n: int) -> bool {
    &&& 0 <= k <= s.len()
    &&& encode_utf8(s.take(k)).len() <= n
    &&& k < s.len() ==> encode_utf8(s.take(k + 1)).len() > n
}

/// The beginning of a text that is kept under a cap is the longest that fits.
pub proof fn the_longest_beginning_is_kept(s: Seq<char>, n: int)
    requires
        n >= 0,
    ensures
        is_longest_fit(s, text::fitting_prefix(s, n).len() as int, n),
        text::fitting_prefix(s, n) == s.take(text::fitting_prefix(s, n).len() as int),
{
    text::lemma_fitting_prefix(s, n);
    let f = text::fitting_prefix(s, n);
    let k = f.len() as int;
    assert(s.take(k) =~= f);
    if k < s.len() {
        assert(text::byte_len(s.take(k + 1)) > n);
    }
}

/// Text under a hard cap: all of it where it fits; otherwise as many characters from its start as
/// leave room for a newline, closed by one; nothing at all under a cap of nothing.
pub proof fn cut_text_is_the_longest_that_fits(s: Seq<char>, cap: int)
    requires
        cap >= 0,
    ensures
        encode_utf8(text::hard_capped(s, cap)).len() <= cap,
        encode_utf8(s).len() <= cap ==> text::hard_capped(s, cap) == s,
        encode_utf8(s).len() > cap && cap == 0 ==> text::hard_capped(s, cap) == Seq::<
            char,
        >::empty(),
        encode_utf8(s).len() > cap && cap > 0 ==> exists|k: int| #[trigger]
            is_longest_fit(s, k, cap - 1) && text::hard_capped(s, cap) == if k > 0 && s[k - 1]
                == '\n' {
                s.take(k)
            } else {
                s.take(k) + seq!['\n']
            },
{
    text::lemma_hard_capped(s, cap);
    if encode_utf8(s).len() > cap && cap > 0 {
        the_longest_beginning_is_kept(s, cap - 1);
        let f = text::fitting_prefix(s, cap - 1);
        let k = f.len() as int;
        assert(f.push('\n') =~= f + seq!['\n']);
        assert(is_longest_fit(s, k, cap - 1));
    }
}

/// Text that is cut before it is closed: as many characters from its start as fit, and a newline
/// behind them where they do not end with one.
pub proof fn capped_text_is_the_longest_that_fits(s: Seq<char>, cap: int)
    requires
        cap >= 0,
    ensures
        encode_utf8(s).len() <= cap ==> text::capped(s, cap) == s,
        encode_utf8(s).len() > cap ==> exists|k: int| #[trigger]
            is_longest_fit(s, k, cap) && text::capped(s, cap) == if k > 0 && s[k - 1] == '\n' {
                s.take(k)
            } else {
                s.take(k) + seq!['\n']
            },
{
    if encode_utf8(s).len() > cap {
        the_longest_beginning_is_kept(s, cap);
        let f = text::fitting_prefix(s, cap);
        let k = f.len() as int;
        assert(f.push('\n') =~= f + seq!['\n']);
        assert(is_longest_fit(s, k, cap));
    }
}

/// Whether the first `n` of `lines` take at most `cap` bytes, and one more would take more.
pub open spec fn is_most_lines(lines: Seq<Seq<char>>, n: int, cap: int) -> bool {
    &&& 0 <= n <= lines.len()
    &&& encode_utf8(lines.take(n).flatten()).len() <= cap
    &&& n < lines.len() ==> encode_utf8(lines.take(n + 1).flatten()).len() > cap
}

/// Of several lines under a cap, as many are kept as fit, and each of them whole.
pub proof fn as_many_lines_as_fit(lines: Seq<Seq<char>>, cap: int) -> (n: int)
    requires
        cap >= 0,
    ensures
        is_most_lines(lines, n, cap),
        text::whole_lines(lines, cap) == lines.take(n).flatten(),
    decreases lines.len(),
{
    if lines.len() == 0 || text::byte_len(lines[0]) > cap {
        assert(lines.take(0) =~= Seq::<Seq<char>>::empty());
        assert(lines.take(0).flatten() =~= Seq::<char>::empty());
        if lines.len() > 0 {
            joining_is_flattening(lines.take(1));
            lemma_concat_first(lines.take(1));
            assert(lines.take(1).skip(1) =~= Seq::<Seq<char>>::empty());
            assert(lines.take(1).flatten() =~= lines[0]);
        }
        0
    } else {
        let rest = lines.skip(1);
        let left = cap - text::byte_len(lines[0]);
        let m = as_many_lines_as_fit(rest, left);
        lemma_first_of(lines, m + 1);
        if m < rest.len() {
            lemma_first_of(lines, m + 2);
        }
        m + 1
    }
}

/// The first `n` lines are the first line and the `n - 1` lines behind it.
proof fn lemma_first_of(lines: Seq<Seq<char>>, n: int)
    requires
        1 <= n <= lines.len(),
    ensures
        lines.take(n).flatten() == lines[0] + lines.skip(1).take(n - 1).flatten(),
        encode_utf8(lines.take(n).flatten()).len() == encode_utf8(lines[0]).len() + encode_utf8(
            lines.skip(1).take(n - 1).flatten(),
        ).len(),
{
    let some = lines.take(n);
    joining_is_flattening(some);
    lemma_concat_first(some);
    assert(some.skip(1) =~= lines.skip(1).take(n - 1));
    joining_is_flattening(some.skip(1));
    text::lemma_byte_len_concat(lines[0], some.skip(1).flatten());
}

/// A line is closed under a cap where there is room for the newline, and left alone otherwise.
pub proof fn closing_keeps_to_the_cap(s: Seq<char>, cap: int)
    ensures
        encode_utf8(s).len() <= cap ==> encode_utf8(text::closed_within(s, cap)).len() <= cap,
        s.len() > 0 && s.last() == '\n' ==> text::closed_within(s, cap) == s,
        s.len() == 0 || s.last() != '\n' ==> text::closed_within(s, cap) == if encode_utf8(s).len()
            < cap {
            s + seq!['\n']
        } else {
            s
        },
{
    text::lemma_char_width('\n');
    text::lemma_byte_len_concat(s, seq!['\n']);
    assert(s.push('\n') =~= s + seq!['\n']);
}

/// What is left of a budget is what was not used, and nothing where it is used up.
pub proof fn budgets_are_used_up(cap: int, used: Seq<char>)
    requires
        cap >= 0,
    ensures
        text::room(cap, used) >= 0,
        encode_utf8(used).len() <= cap ==> text::room(cap, used) + encode_utf8(used).len() == cap,
        encode_utf8(used).len() > cap ==> text::room(cap, used) == 0,
{
}

} // verus!
