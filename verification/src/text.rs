//! Text measured in UTF-8 bytes: capping, line ends and decimal numerals.

use vstd::prelude::*;
use vstd::string::*;
use vstd::utf8::*;

verus! {

/// How many bytes `s` takes in UTF-8.
pub open spec fn byte_len(s: Seq<char>) -> nat {
    encode_utf8(s).len()
}

/// The longest prefix of `s` that takes at most `n` bytes in UTF-8.
pub open spec fn fitting_prefix(s: Seq<char>, n: int) -> Seq<char>
    decreases s.len(),
{
    if s.len() == 0 || byte_len(s.take(1)) > n {
        Seq::empty()
    } else {
        s.take(1) + fitting_prefix(s.skip(1), n - byte_len(s.take(1)))
    }
}

/// Whether `s` ends with a line feed.
pub open spec fn ends_line(s: Seq<char>) -> bool {
    s.len() > 0 && s.last() == '\n'
}

/// `s`, closed by a line feed if it does not end with one already.
pub open spec fn closed_line(s: Seq<char>) -> Seq<char> {
    if ends_line(s) {
        s
    } else {
        s.push('\n')
    }
}

/// UTF-8 encodes a concatenation piece by piece.
pub proof fn lemma_encode_concat(a: Seq<char>, b: Seq<char>)
    ensures
        encode_utf8(a + b) == encode_utf8(a) + encode_utf8(b),
    decreases a.len(),
{
    if a.len() == 0 {
        assert(a + b =~= b);
        assert(encode_utf8(a) + encode_utf8(b) =~= encode_utf8(b));
    } else {
        lemma_encode_concat(a.drop_first(), b);
        assert((a + b).drop_first() =~= a.drop_first() + b);
        assert(encode_utf8(a + b) =~= encode_utf8(a) + encode_utf8(b));
    }
}

/// Byte lengths add up over a concatenation.
pub proof fn lemma_byte_len_concat(a: Seq<char>, b: Seq<char>)
    ensures
        byte_len(a + b) == byte_len(a) + byte_len(b),
{
    lemma_encode_concat(a, b);
}

/// A single character takes between one and four bytes, and a line feed takes one.
pub proof fn lemma_char_width(c: char)
    ensures
        encode_utf8(seq![c]) == encode_scalar(c as u32),
        1 <= byte_len(seq![c]) <= 4,
        c == '\n' ==> byte_len(seq![c]) == 1,
{
    assert(seq![c].drop_first() =~= Seq::<char>::empty());
    assert(encode_utf8(seq![c].drop_first()) =~= Seq::<u8>::empty());
    assert(encode_utf8(seq![c]) =~= encode_scalar(c as u32));
}

/// Text without bytes is empty text.
pub proof fn lemma_byte_len_zero(s: Seq<char>)
    ensures
        byte_len(s) >= s.len(),
        byte_len(s) == 0 <==> s.len() == 0,
    decreases s.len(),
{
    if s.len() > 0 {
        lemma_char_width(s[0]);
        lemma_byte_len_zero(s.drop_first());
        assert(s =~= seq![s[0]] + s.drop_first());
        lemma_byte_len_concat(seq![s[0]], s.drop_first());
    }
}

/// The byte behind an encoded prefix is a character boundary.
proof fn lemma_boundary_after_prefix(a: Seq<char>, b: Seq<char>)
    ensures
        is_char_boundary(encode_utf8(a + b), byte_len(a) as int),
    decreases a.len(),
{
    broadcast use encode_utf8_valid_utf8;

    if a.len() == 0 {
        assert(a + b =~= b);
    } else {
        let all = a + b;
        let bytes = encode_utf8(all);
        lemma_encode_concat(a, b);
        encode_utf8_first_scalar(all);
        assert(all.drop_first() =~= a.drop_first() + b);
        assert(pop_first_scalar(bytes) =~= encode_utf8(all.drop_first()));
        lemma_boundary_after_prefix(a.drop_first(), b);
        assert(encode_utf8(a) =~= encode_scalar(a[0] as u32) + encode_utf8(a.drop_first()));
        lemma_byte_len_zero(a);
    }
}

/// What pins `fitting_prefix` down: `a` fits and one more character does not.
proof fn lemma_fitting_prefix_is(a: Seq<char>, b: Seq<char>, n: int)
    requires
        byte_len(a) <= n,
        b.len() > 0 ==> byte_len(a) + byte_len(b.take(1)) > n,
    ensures
        fitting_prefix(a + b, n) == a,
    decreases a.len(),
{
    let all = a + b;
    if a.len() == 0 {
        assert(all =~= b);
        assert(fitting_prefix(all, n) =~= a);
    } else {
        let head = a.take(1);
        let tail = a.skip(1);
        assert(a =~= head + tail);
        lemma_byte_len_concat(head, tail);
        assert(all.take(1) =~= head);
        assert(all.skip(1) =~= tail + b);
        lemma_fitting_prefix_is(tail, b, n - byte_len(head));
        assert(fitting_prefix(all, n) =~= a);
    }
}

/// `fitting_prefix` is a prefix, it fits, and no longer prefix does.
pub proof fn lemma_fitting_prefix(s: Seq<char>, n: int)
    requires
        n >= 0,
    ensures
        fitting_prefix(s, n).is_prefix_of(s),
        byte_len(fitting_prefix(s, n)) <= n,
        byte_len(s) <= n ==> fitting_prefix(s, n) == s,
        forall|k: int|
            fitting_prefix(s, n).len() < k <= s.len() ==> byte_len(#[trigger] s.take(k)) > n,
    decreases s.len(),
{
    let f = fitting_prefix(s, n);
    if s.len() > 0 {
        assert(s =~= s.take(1) + s.skip(1));
        lemma_byte_len_concat(s.take(1), s.skip(1));
        if byte_len(s.take(1)) > n {
            assert forall|k: int| 0 < k <= s.len() implies byte_len(#[trigger] s.take(k)) > n by {
                assert(s.take(k) =~= s.take(1) + s.take(k).skip(1));
                lemma_byte_len_concat(s.take(1), s.take(k).skip(1));
            }
        } else {
            let m = n - byte_len(s.take(1));
            lemma_fitting_prefix(s.skip(1), m);
            let g = fitting_prefix(s.skip(1), m);
            lemma_byte_len_concat(s.take(1), g);
            assert(f == s.take(1) + g);
            assert(f =~= s.take(f.len() as int)) by {
                assert(g =~= s.skip(1).take(g.len() as int));
            }
            assert forall|k: int| f.len() < k <= s.len() implies byte_len(#[trigger] s.take(k)) > n by {
                assert(s.take(k) =~= s.take(1) + s.skip(1).take(k - 1));
                lemma_byte_len_concat(s.take(1), s.skip(1).take(k - 1));
            }
            if byte_len(s) <= n {
                assert(f =~= s);
            }
        }
    } else {
        assert(f =~= s);
    }
}

/// A prefix that fits is kept whole, and what is left of the budget goes to the rest.
pub proof fn lemma_fitting_prefix_concat(a: Seq<char>, b: Seq<char>, n: int)
    requires
        byte_len(a) <= n,
    ensures
        fitting_prefix(a + b, n) == a + fitting_prefix(b, n - byte_len(a)),
    decreases a.len(),
{
    let all = a + b;
    if a.len() == 0 {
        assert(all =~= b);
        assert(a + fitting_prefix(b, n) =~= fitting_prefix(b, n));
    } else {
        let head = a.take(1);
        let tail = a.skip(1);
        assert(a =~= head + tail);
        lemma_byte_len_concat(head, tail);
        assert(all.take(1) =~= head);
        assert(all.skip(1) =~= tail + b);
        lemma_fitting_prefix_concat(tail, b, n - byte_len(head));
        assert(fitting_prefix(all, n) =~= a + fitting_prefix(b, n - byte_len(a)));
    }
}

/// Where `a` alone passes the budget, what follows it makes no difference.
pub proof fn lemma_fitting_prefix_cut(a: Seq<char>, b: Seq<char>, n: int)
    requires
        n >= 0,
        byte_len(a) > n,
    ensures
        fitting_prefix(a + b, n) == fitting_prefix(a, n),
    decreases a.len(),
{
    let all = a + b;
    lemma_byte_len_zero(a);
    let head = a.take(1);
    let tail = a.skip(1);
    assert(a =~= head + tail);
    lemma_byte_len_concat(head, tail);
    assert(all.take(1) =~= head);
    assert(all.skip(1) =~= tail + b);
    if byte_len(head) <= n {
        lemma_fitting_prefix_cut(tail, b, n - byte_len(head));
    }
}

/// `pieces`, one behind the other.
pub open spec fn concat(pieces: Seq<Seq<char>>) -> Seq<char>
    decreases pieces.len(),
{
    if pieces.len() == 0 {
        Seq::empty()
    } else {
        concat(pieces.drop_last()) + pieces.last()
    }
}

/// Laying two runs of pieces end to end.
pub proof fn lemma_concat_join(a: Seq<Seq<char>>, b: Seq<Seq<char>>)
    ensures
        concat(a + b) == concat(a) + concat(b),
    decreases b.len(),
{
    if b.len() == 0 {
        assert(a + b =~= a);
        assert(concat(a) + concat(b) =~= concat(a));
    } else {
        assert((a + b).drop_last() =~= a + b.drop_last());
        lemma_concat_join(a, b.drop_last());
        assert(concat(a + b) =~= concat(a) + concat(b));
    }
}

/// `s` under a cap of `cap` bytes: as it is where it fits, and otherwise its longest prefix that
/// does, closed by a line feed.
pub open spec fn capped(s: Seq<char>, cap: int) -> Seq<char> {
    if byte_len(s) <= cap {
        s
    } else {
        closed_line(fitting_prefix(s, cap))
    }
}

/// Capped text exceeds its cap by the closing line feed at most, and without that line feed it
/// is a prefix of the text.
pub proof fn lemma_capped(s: Seq<char>, cap: int)
    requires
        cap >= 0,
    ensures
        byte_len(capped(s, cap)) <= cap + 1,
        byte_len(s) <= cap ==> capped(s, cap) == s,
        byte_len(s) > cap ==> ends_line(capped(s, cap)),
        fitting_prefix(s, cap).is_prefix_of(s),
        capped(s, cap) == fitting_prefix(s, cap) || capped(s, cap) == fitting_prefix(s, cap).push(
            '\n',
        ),
{
    let f = fitting_prefix(s, cap);
    lemma_fitting_prefix(s, cap);
    lemma_char_width('\n');
    lemma_byte_len_concat(f, seq!['\n']);
    assert(f.push('\n') =~= f + seq!['\n']);
}

/// The lines at the start of `lines` that fit into `cap` bytes, none of them cut.
pub open spec fn whole_lines(lines: Seq<Seq<char>>, cap: int) -> Seq<char>
    decreases lines.len(),
{
    if lines.len() == 0 || byte_len(lines[0]) > cap {
        Seq::empty()
    } else {
        lines[0] + whole_lines(lines.skip(1), cap - byte_len(lines[0]))
    }
}

/// What `whole_lines` keeps fits, and it keeps everything if and only if everything fits.
pub proof fn lemma_whole_lines(lines: Seq<Seq<char>>, cap: int)
    requires
        cap >= 0,
    ensures
        byte_len(whole_lines(lines, cap)) <= cap,
        byte_len(concat(lines)) <= cap ==> whole_lines(lines, cap) == concat(
            lines,
        ),
    decreases lines.len(),
{
    if lines.len() > 0 {
        let head = lines[0];
        let rest = lines.skip(1);
        assert(lines =~= seq![head] + rest);
        lemma_concat_join(seq![head], rest);
        assert(seq![head].drop_last() =~= Seq::<Seq<char>>::empty());
        assert(concat(seq![head]) =~= head) by {
            assert(concat(seq![head].drop_last()) =~= Seq::<char>::empty());
        }
        lemma_byte_len_concat(head, concat(rest));
        if byte_len(head) <= cap {
            let left = cap - byte_len(head);
            lemma_whole_lines(rest, left);
            lemma_byte_len_concat(head, whole_lines(rest, left));
        } else {
            lemma_byte_len_zero(Seq::<char>::empty());
        }
    } else {
        lemma_byte_len_zero(Seq::<char>::empty());
    }
}

/// Splitting off the first of several pieces.
proof fn lemma_concat_first(pieces: Seq<Seq<char>>)
    requires
        pieces.len() > 0,
    ensures
        concat(pieces) == pieces[0] + concat(pieces.skip(1)),
{
    let first = seq![pieces[0]];
    assert(pieces =~= first + pieces.skip(1));
    lemma_concat_join(first, pieces.skip(1));
    assert(first.drop_last() =~= Seq::<Seq<char>>::empty());
    assert(concat(first.drop_last()) =~= Seq::<char>::empty());
    assert(concat(first) =~= pieces[0]);
}

/// Lines that all fit stay, and a further line that does not fit is left out.
pub proof fn lemma_whole_lines_cut(lines: Seq<Seq<char>>, line: Seq<char>, cap: int)
    requires
        byte_len(concat(lines)) <= cap,
        byte_len(concat(lines)) + byte_len(line) > cap,
    ensures
        whole_lines(lines.push(line), cap) == concat(lines),
    decreases lines.len(),
{
    let longer = lines.push(line);
    if lines.len() == 0 {
        lemma_byte_len_zero(Seq::<char>::empty());
        assert(longer[0] == line);
    } else {
        let head = lines[0];
        let rest = lines.skip(1);
        lemma_concat_first(lines);
        lemma_byte_len_concat(head, concat(rest));
        assert(longer[0] == head);
        assert(longer.skip(1) =~= rest.push(line));
        lemma_whole_lines_cut(rest, line, cap - byte_len(head));
    }
}

/// Where `lines` do not all fit, what follows them makes no difference.
pub proof fn lemma_whole_lines_settled(lines: Seq<Seq<char>>, line: Seq<char>, cap: int)
    requires
        byte_len(concat(lines)) > cap >= 0,
    ensures
        whole_lines(lines.push(line), cap) == whole_lines(lines, cap),
    decreases lines.len(),
{
    let longer = lines.push(line);
    if lines.len() == 0 {
        lemma_byte_len_zero(Seq::<char>::empty());
    } else {
        let head = lines[0];
        let rest = lines.skip(1);
        lemma_concat_first(lines);
        lemma_byte_len_concat(head, concat(rest));
        assert(longer[0] == head);
        assert(longer.skip(1) =~= rest.push(line));
        if byte_len(head) <= cap {
            lemma_whole_lines_settled(rest, line, cap - byte_len(head));
        }
    }
}

/// What `whole_lines` keeps is a number of lines from the start, none of them cut.
pub proof fn lemma_whole_lines_start(lines: Seq<Seq<char>>, cap: int) -> (n: int)
    ensures
        0 <= n <= lines.len(),
        whole_lines(lines, cap) == concat(lines.take(n)),
    decreases lines.len(),
{
    if lines.len() == 0 || byte_len(lines[0]) > cap {
        assert(lines.take(0) =~= Seq::<Seq<char>>::empty());
        0
    } else {
        let rest = lines.skip(1);
        let n = lemma_whole_lines_start(rest, cap - byte_len(lines[0]));
        let kept = lines.take(n + 1);
        lemma_concat_first(kept);
        assert(kept.skip(1) =~= rest.take(n));
        n + 1
    }
}

/// `s` closed by a line feed, where that fits into `cap` bytes.
pub open spec fn closed_within(s: Seq<char>, cap: int) -> Seq<char> {
    if byte_len(closed_line(s)) <= cap {
        closed_line(s)
    } else {
        s
    }
}

/// `s` under a hard cap of `cap` bytes: as it is where it fits, and otherwise its longest prefix
/// that leaves room for a line feed, closed by one. A cap of no bytes leaves nothing.
pub open spec fn hard_capped(s: Seq<char>, cap: int) -> Seq<char> {
    if byte_len(s) <= cap {
        s
    } else if cap <= 0 {
        Seq::empty()
    } else {
        closed_line(fitting_prefix(s, cap - 1))
    }
}

/// Hard-capped text keeps to its cap. What was cut ends with a line feed, and without that line
/// feed it is a prefix of the text.
pub proof fn lemma_hard_capped(s: Seq<char>, cap: int)
    requires
        cap >= 0,
    ensures
        byte_len(hard_capped(s, cap)) <= cap,
        byte_len(s) <= cap ==> hard_capped(s, cap) == s,
        byte_len(s) > cap > 0 ==> ends_line(hard_capped(s, cap)) && fitting_prefix(
            s,
            cap - 1,
        ).is_prefix_of(s),
{
    lemma_byte_len_zero(Seq::<char>::empty());
    if byte_len(s) > cap && cap > 0 {
        lemma_capped(s, cap - 1);
    }
}

/// The texts held by `v`.
pub open spec fn texts_of(v: Seq<String>) -> Seq<Seq<char>> {
    v.map_values(|s: String| s@)
}

/// The number of bytes of `s`.
pub fn len_bytes(s: &str) -> (n: usize)
    ensures
        n == byte_len(s@),
{
    s.as_bytes().len()
}

/// Whether `s` ends with a line feed.
pub fn is_line_ended(s: &str) -> (b: bool)
    ensures
        b == ends_line(s@),
{
    let bytes = s.as_bytes();
    let n: usize = bytes.len();
    proof {
        lemma_byte_len_zero(s@);
        if s@.len() > 0 {
            let c = s@.last();
            assert(s@ =~= s@.drop_last() + seq![c]);
            lemma_encode_concat(s@.drop_last(), seq![c]);
            lemma_char_width(c);
            assert(encode_utf8(s@).last() == encode_scalar(c as u32).last());
            lemma_scalar_last_byte(c);
        }
    }
    n > 0 && bytes[n - 1] == 10u8
}

/// Only a line feed's encoding ends with the byte 10.
proof fn lemma_scalar_last_byte(c: char)
    ensures
        encode_scalar(c as u32).last() == 10u8 <==> c == '\n',
{
    let u = c as u32;
    assert(0x80u8 | ((u & 0x3F) as u8) != 10u8) by (bit_vector);
    assert(u <= 0x7f ==> ((u & 0x7F) as u8 == 10u8 <==> u == 10)) by (bit_vector);
}

/// Appends `chunk`, or, where the total would pass `max_bytes`, the longest prefix of it that
/// still fits and a closing line feed. Tells whether it had to cut.
pub fn append_capped(output: &mut String, chunk: &str, max_bytes: usize) -> (cut: bool)
    ensures
        cut == (byte_len(old(output)@) + byte_len(chunk@) > max_bytes),
        !cut ==> final(output)@ == old(output)@ + chunk@,
        cut ==> final(output)@ == closed_line(
            old(output)@ + fitting_prefix(chunk@, room(max_bytes as int, old(output)@)),
        ),
{
    let used: usize = len_bytes(output.as_str());
    let size: usize = len_bytes(chunk);
    if used <= max_bytes && size <= max_bytes - used {
        output.append(chunk);
        return false;
    }
    let remaining: usize = max_bytes.saturating_sub(used);
    let kept = cut_at_char(chunk, remaining);
    output.append(kept);
    close_line(output);
    true
}

/// The bytes that `used` leaves free of a budget of `cap` bytes.
pub open spec fn room(cap: int, used: Seq<char>) -> int {
    if byte_len(used) <= cap {
        cap - byte_len(used)
    } else {
        0
    }
}

/// The longest prefix of `s` that takes at most `n` bytes.
pub fn cut_at_char(s: &str, n: usize) -> (kept: &str)
    ensures
        kept@ == fitting_prefix(s@, n as int),
{
    let size: usize = len_bytes(s);
    let mut cut: usize = if n < size { n } else { size };
    let ghost bytes = encode_utf8(s@);
    let ghost top = cut as int;
    proof {
        encode_utf8_valid_utf8(s@);
        is_char_boundary_start_end_of_seq(bytes);
    }
    while cut > 0 && !s.is_char_boundary(cut)
        invariant
            bytes == encode_utf8(s@),
            valid_utf8(bytes),
            cut <= top <= bytes.len(),
            forall|k: int| cut < k <= top ==> !is_char_boundary(bytes, k),
            is_char_boundary(bytes, 0),
        decreases cut,
    {
        cut = cut - 1;
    }
    let parts = s.split_at(cut);
    proof {
        let a = parts.0@;
        let b = parts.1@;
        encode_utf8_decode_utf8(a);
        encode_utf8_decode_utf8(b);
        encode_utf8_decode_utf8(s@);
        decode_utf8_split(bytes, cut as int);
        assert(s@ == a + b);
        if b.len() > 0 {
            let next = b.take(1);
            assert(s@ =~= (a + next) + b.skip(1));
            lemma_boundary_after_prefix(a + next, b.skip(1));
            lemma_byte_len_concat(a, next);
            lemma_byte_len_concat(a + next, b.skip(1));
            lemma_byte_len_zero(next);
        }
        lemma_fitting_prefix_is(a, b, n as int);
    }
    parts.0
}

/// Closes `s` with a line feed if it does not end with one already.
pub fn close_line(s: &mut String)
    ensures
        final(s)@ == closed_line(old(s)@),
{
    if !is_line_ended(s.as_str()) {
        push_newline(s);
    }
}

/// Closes `s` with a line feed if it does not end with one already and there is room for one.
pub fn close_line_within(s: &mut String, max_bytes: usize)
    ensures
        final(s)@ == closed_within(old(s)@, max_bytes as int),
{
    proof {
        lemma_char_width('\n');
        lemma_byte_len_concat(s@, seq!['\n']);
        assert(s@.push('\n') =~= s@ + seq!['\n']);
    }
    if !is_line_ended(s.as_str()) && len_bytes(s.as_str()) < max_bytes {
        push_newline(s);
    }
}

/// Appends a line feed.
pub fn push_newline(s: &mut String)
    ensures
        final(s)@ == old(s)@.push('\n'),
{
    proof {
        reveal_strlit("\n");
        assert("\n"@ =~= seq!['\n']);
    }
    s.append("\n");
}

/// The decimal digit `d`.
pub open spec fn digit(d: nat) -> char {
    if d == 0 {
        '0'
    } else if d == 1 {
        '1'
    } else if d == 2 {
        '2'
    } else if d == 3 {
        '3'
    } else if d == 4 {
        '4'
    } else if d == 5 {
        '5'
    } else if d == 6 {
        '6'
    } else if d == 7 {
        '7'
    } else if d == 8 {
        '8'
    } else {
        '9'
    }
}

/// `n` written in decimal, without leading zeros.
pub open spec fn decimal(n: nat) -> Seq<char>
    decreases n,
{
    if n < 10 {
        seq![digit(n)]
    } else {
        decimal(n / 10).push(digit(n % 10))
    }
}

/// Appends `n` in decimal.
pub fn push_decimal(s: &mut String, n: u64)
    ensures
        final(s)@ == old(s)@ + decimal(n as nat),
    decreases n,
{
    let ghost before = s@;
    if n >= 10 {
        push_decimal(s, n / 10);
    }
    push_digit(s, n % 10);
    assert(s@ =~= before + decimal(n as nat));
}

/// Appends one decimal digit.
fn push_digit(s: &mut String, d: u64)
    requires
        d < 10,
    ensures
        final(s)@ == old(s)@.push(digit(d as nat)),
{
    let text: &str = match d {
        0 => "0",
        1 => "1",
        2 => "2",
        3 => "3",
        4 => "4",
        5 => "5",
        6 => "6",
        7 => "7",
        8 => "8",
        _ => "9",
    };
    proof {
        reveal_strlit("0");
        reveal_strlit("1");
        reveal_strlit("2");
        reveal_strlit("3");
        reveal_strlit("4");
        reveal_strlit("5");
        reveal_strlit("6");
        reveal_strlit("7");
        reveal_strlit("8");
        reveal_strlit("9");
        assert(text@ =~= seq![digit(d as nat)]);
    }
    s.append(text);
}

} // verus!
