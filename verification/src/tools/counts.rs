//! `count` mode: the matches of each file, added up per path and sorted by path.

use vstd::prelude::*;
use vstd::string::*;

use crate::ordering::{self, sort_by_key, SortKey};
use crate::text::{self, len_bytes, push_decimal};
use crate::tools::common::ErrorState;
use crate::tools::response::ToolResponse;

verus! {

/// A path and the number of matches found there.
#[derive(Debug)]
pub struct FileCount {
    pub path: String,
    pub count: usize,
}

impl SortKey for FileCount {
    open spec fn key(&self) -> Seq<u8> {
        vstd::utf8::encode_utf8(self.path@)
    }

    fn key_bytes(&self) -> (bytes: &[u8]) {
        self.path.as_str().as_bytes()
    }
}

/// The paths and counts held by `v`.
pub open spec fn counts_of(v: Seq<FileCount>) -> Seq<(Seq<char>, usize)> {
    v.map_values(|f: FileCount| (f.path@, f.count))
}

/// The matches that `files` report for `path`.
pub open spec fn hits_at(files: Seq<(Seq<char>, usize)>, path: Seq<char>) -> nat
    decreases files.len(),
{
    if files.len() == 0 {
        0
    } else {
        hits_at(files.drop_last(), path) + if files.last().0 == path {
            files.last().1 as nat
        } else {
            0
        }
    }
}

/// The matches that `files` report altogether.
pub open spec fn hits_total(files: Seq<(Seq<char>, usize)>) -> nat
    decreases files.len(),
{
    if files.len() == 0 {
        0
    } else {
        hits_total(files.drop_last()) + files.last().1 as nat
    }
}

/// `n` as a machine counter holds it.
pub open spec fn as_counter(n: nat) -> usize {
    (n as int % (usize::MAX + 1)) as usize
}

/// Whether some of `files` is at `path`.
pub open spec fn mentions(files: Seq<(Seq<char>, usize)>, path: Seq<char>) -> bool {
    exists|i: int| 0 <= i < files.len() && #[trigger] files[i].0 == path
}

/// Whether the paths of `tally` ascend in the order of their bytes, each once.
pub open spec fn strictly_ascending(tally: Seq<(Seq<char>, usize)>) -> bool {
    forall|i: int, j: int|
        #![trigger tally[i], tally[j]]
        0 <= i < j < tally.len() ==> tally[i].0 != tally[j].0 && ordering::bytes_le(
            vstd::utf8::encode_utf8(tally[i].0),
            vstd::utf8::encode_utf8(tally[j].0),
        )
}

/// Whether `tally` adds `files` up: the paths of `files`, each once and in the order of their
/// bytes, with all that `files` report for them.
pub open spec fn is_tally(
    files: Seq<(Seq<char>, usize)>,
    tally: Seq<(Seq<char>, usize)>,
) -> bool {
    &&& strictly_ascending(tally)
    &&& forall|path: Seq<char>| mentions(files, path) <==> #[trigger] mentions(tally, path)
    &&& forall|i: int|
        0 <= i < tally.len() ==> (#[trigger] tally[i]).1 == as_counter(hits_at(files, tally[i].0))
}

/// Raising a machine counter.
pub proof fn lemma_as_counter_add(n: nat, k: usize)
    ensures
        as_counter(n + k as nat) == as_counter(n).wrapping_add(k),
        n <= usize::MAX ==> as_counter(n) == n,
{
    let m = usize::MAX + 1;
    vstd::arithmetic::div_mod::lemma_add_mod_noop(n as int, k as int, m);
    vstd::arithmetic::div_mod::lemma_small_mod(k as nat, m as nat);
    let x = as_counter(n);
    assert(x == n as int % m);
    assert((n + k) % m == (x + k) % m);
    if x + k >= m {
        vstd::arithmetic::div_mod::lemma_mod_sub_multiples_vanish(x + k, m);
        vstd::arithmetic::div_mod::lemma_small_mod((x + k - m) as nat, m as nat);
    } else {
        vstd::arithmetic::div_mod::lemma_small_mod((x + k) as nat, m as nat);
    }
    if n <= usize::MAX {
        vstd::arithmetic::div_mod::lemma_small_mod(n, m as nat);
    }
}

/// Taking one report out of `files`.
proof fn lemma_hits_remove(files: Seq<FileCount>, i: int, path: Seq<char>)
    requires
        0 <= i < files.len(),
    ensures
        hits_at(counts_of(files), path) == hits_at(counts_of(files.remove(i)), path) + if files[i].path@
            == path {
            files[i].count as nat
        } else {
            0
        },
    decreases files.len(),
{
    let all = counts_of(files);
    let rest = counts_of(files.remove(i));
    if i == files.len() - 1 {
        assert(rest =~= all.drop_last());
    } else {
        lemma_hits_remove(files.drop_last(), i, path);
        assert(counts_of(files.drop_last()) =~= all.drop_last());
        assert(files.drop_last().remove(i) =~= files.remove(i).drop_last());
        assert(counts_of(files.remove(i).drop_last()) =~= rest.drop_last());
        assert(rest.last() == all.last());
    }
}

/// The order of the reports makes no difference to what they add up to.
proof fn lemma_hits_permuted(a: Seq<FileCount>, b: Seq<FileCount>, path: Seq<char>)
    requires
        a.to_multiset() == b.to_multiset(),
    ensures
        hits_at(counts_of(a), path) == hits_at(counts_of(b), path),
    decreases a.len(),
{
    broadcast use vstd::seq_lib::group_to_multiset_ensures;

    if a.len() == 0 {
        assert(b.len() == 0) by {
            assert(b.len() == b.to_multiset().len());
            assert(a.len() == a.to_multiset().len());
        }
    } else {
        let x = a.last();
        assert(a.contains(x));
        assert(b.to_multiset().count(x) > 0);
        assert(b.contains(x));
        let j = choose|j: int| 0 <= j < b.len() && b[j] == x;
        assert(a.remove(a.len() - 1).to_multiset() == b.remove(j).to_multiset());
        lemma_hits_permuted(a.remove(a.len() - 1), b.remove(j), path);
        lemma_hits_remove(a, a.len() - 1, path);
        lemma_hits_remove(b, j, path);
    }
}

/// The order of the reports makes no difference to which paths they mention.
proof fn lemma_mentions_permuted(a: Seq<FileCount>, b: Seq<FileCount>, path: Seq<char>)
    requires
        a.to_multiset() == b.to_multiset(),
        mentions(counts_of(a), path),
    ensures
        mentions(counts_of(b), path),
{
    broadcast use vstd::seq_lib::group_to_multiset_ensures;

    let i = choose|i: int| 0 <= i < counts_of(a).len() && #[trigger] counts_of(a)[i].0 == path;
    assert(a.contains(a[i]));
    assert(b.to_multiset().count(a[i]) > 0);
    assert(b.contains(a[i]));
    let j = choose|j: int| 0 <= j < b.len() && b[j] == a[i];
    assert(counts_of(b)[j].0 == path);
}

/// There is one tally at most.
pub proof fn tally_is_unique(
    files: Seq<(Seq<char>, usize)>,
    a: Seq<(Seq<char>, usize)>,
    b: Seq<(Seq<char>, usize)>,
)
    requires
        is_tally(files, a),
        is_tally(files, b),
    ensures
        a == b,
{
    lemma_same_paths(a, b);
    assert(a =~= b);
}

/// Two strictly ascending lists of the same paths agree at each position.
proof fn lemma_same_paths(a: Seq<(Seq<char>, usize)>, b: Seq<(Seq<char>, usize)>)
    requires
        strictly_ascending(a),
        strictly_ascending(b),
        forall|path: Seq<char>| #[trigger] mentions(a, path) <==> mentions(b, path),
    ensures
        a.len() == b.len(),
        forall|i: int| 0 <= i < a.len() ==> (#[trigger] a[i]).0 == b[i].0,
    decreases a.len(),
{
    if a.len() == 0 {
        if b.len() > 0 {
            assert(mentions(b, b[0].0));
            assert(mentions(a, b[0].0));
        }
    } else {
        assert(mentions(a, a.last().0));
        assert(b.len() > 0);
        let last_a = a.len() - 1;
        let last_b = b.len() - 1;
        assert(mentions(b, b[last_b].0));
        assert(mentions(a, b[last_b].0));
        let i = choose|i: int| 0 <= i < a.len() && #[trigger] a[i].0 == b[last_b].0;
        let j = choose|j: int| 0 <= j < b.len() && #[trigger] b[j].0 == a[last_a].0;
        if i != last_a {
            assert(a[i].0 != a[last_a].0);
            assert(j != last_b);
            assert(b[j].0 != b[last_b].0);
            ordering::lemma_le_antisymmetric(
                vstd::utf8::encode_utf8(a[last_a].0),
                vstd::utf8::encode_utf8(b[last_b].0),
            );
            lemma_encode_injective(a[last_a].0, b[last_b].0);
        }
        assert(a[last_a].0 == b[last_b].0);
        let a1 = a.drop_last();
        let b1 = b.drop_last();
        assert forall|path: Seq<char>| #[trigger] mentions(a1, path) <==> mentions(b1, path) by {
            if mentions(a1, path) {
                let k = choose|k: int| 0 <= k < a1.len() && #[trigger] a1[k].0 == path;
                assert(a[k].0 == path);
                assert(mentions(a, path));
                let m = choose|m: int| 0 <= m < b.len() && #[trigger] b[m].0 == path;
                assert(a[k].0 != a[last_a].0);
                assert(b1[m].0 == path);
            }
            if mentions(b1, path) {
                let k = choose|k: int| 0 <= k < b1.len() && #[trigger] b1[k].0 == path;
                assert(b[k].0 == path);
                assert(mentions(b, path));
                assert(mentions(a, path));
                let m = choose|m: int| 0 <= m < a.len() && #[trigger] a[m].0 == path;
                assert(b[k].0 != b[last_b].0);
                assert(a1[m].0 == path);
            }
        }
        lemma_same_paths(a1, b1);
        assert forall|k: int| 0 <= k < a.len() implies (#[trigger] a[k]).0 == b[k].0 by {
            if k < last_a {
                assert(a1[k].0 == b1[k].0);
            }
        }
    }
}

/// Different texts have different encodings.
proof fn lemma_encode_injective(a: Seq<char>, b: Seq<char>)
    requires
        vstd::utf8::encode_utf8(a) == vstd::utf8::encode_utf8(b),
    ensures
        a == b,
{
    vstd::utf8::encode_utf8_decode_utf8(a);
    vstd::utf8::encode_utf8_decode_utf8(b);
}

/// Adds up what is reported for each path and sorts by path.
pub fn tally(files: Vec<FileCount>) -> (sums: Vec<FileCount>)
    ensures
        is_tally(counts_of(files@), counts_of(sums@)),
{
    let sorted = sort_by_key(files);
    let sums = add_up(&sorted);
    proof {
        let given = counts_of(files@);
        let out = counts_of(sums@);
        let mid = counts_of(sorted@);
        assert forall|path: Seq<char>| mentions(given, path) <==> #[trigger] mentions(out, path) by {
            if mentions(given, path) {
                lemma_mentions_permuted(files@, sorted@, path);
            }
            if mentions(mid, path) {
                lemma_mentions_permuted(sorted@, files@, path);
            }
        }
        assert forall|i: int| 0 <= i < out.len() implies (#[trigger] out[i]).1 == as_counter(
            hits_at(given, out[i].0),
        ) by {
            lemma_hits_permuted(files@, sorted@, out[i].0);
        }
    }
    sums
}

/// No report, no matches.
proof fn lemma_unmentioned(files: Seq<(Seq<char>, usize)>, path: Seq<char>)
    requires
        !mentions(files, path),
    ensures
        hits_at(files, path) == 0,
    decreases files.len(),
{
    if files.len() > 0 {
        let before = files.drop_last();
        if mentions(before, path) {
            let i = choose|i: int| 0 <= i < before.len() && #[trigger] before[i].0 == path;
            assert(files[i].0 == path);
        }
        lemma_unmentioned(before, path);
        assert(files[files.len() - 1].0 != path);
    }
}

/// Adds up neighbours with the same path in a sorted list.
fn add_up(sorted: &Vec<FileCount>) -> (sums: Vec<FileCount>)
    requires
        ordering::ascending(sorted@),
    ensures
        is_tally(counts_of(sorted@), counts_of(sums@)),
{
    let mut sums: Vec<FileCount> = Vec::new();
    let ghost all = counts_of(sorted@);
    let mut i: usize = 0;
    proof {
        assert(all.take(0) =~= Seq::<(Seq<char>, usize)>::empty());
        assert(counts_of(sums@) =~= Seq::<(Seq<char>, usize)>::empty());
    }
    while i < sorted.len()
        invariant
            i <= sorted@.len(),
            all == counts_of(sorted@),
            ordering::ascending(sorted@),
            is_tally(all.take(i as int), counts_of(sums@)),
            (i == 0) == (sums@.len() == 0),
            i > 0 ==> counts_of(sums@).last().0 == all[i - 1].0,
        decreases sorted@.len() - i,
    {
        let next = &sorted[i];
        let ghost before = all.take(i as int);
        let ghost after = all.take(i + 1);
        let ghost sums0 = counts_of(sums@);
        let ghost path = next.path@;
        assert(after.drop_last() =~= before);
        assert(after.last() == (path, next.count));
        let ghost n = sums@.len() as int;
        let same = if i == 0 {
            false
        } else {
            sums[sums.len() - 1].path == next.path
        };
        if same {
            match sums.pop() {
                Some(last) => {
                    proof {
                        lemma_as_counter_add(hits_at(before, path), next.count);
                    }
                    let count: usize = last.count.wrapping_add(next.count);
                    sums.push(FileCount { path: last.path, count });
                },
                None => {},
            }
            proof {
                let out = counts_of(sums@);
                assert(out.len() == n);
                assert(out =~= sums0.update(n - 1, (path, out[n - 1].1)));
                assert(sums0[n - 1].0 == path);
                assert forall|k: int| 0 <= k < out.len() implies (#[trigger] out[k]).0
                    == sums0[k].0 by {}
                lemma_step_mentions(before, after, sums0, out, path);
                assert forall|k: int| 0 <= k < out.len() implies (#[trigger] out[k]).1
                    == as_counter(hits_at(after, out[k].0)) by {
                    if k < n - 1 {
                        assert(sums0[k].0 != sums0[n - 1].0);
                        assert(sums0[k].1 == as_counter(hits_at(before, sums0[k].0)));
                    } else {
                        assert(sums0[n - 1].1 == as_counter(hits_at(before, path)));
                    }
                }
            }
        } else {
            proof {
                // The new path comes behind every path so far.
                assert forall|k: int| 0 <= k < n implies (#[trigger] sums0[k]).0 != path
                    && ordering::bytes_le(
                    vstd::utf8::encode_utf8(sums0[k].0),
                    vstd::utf8::encode_utf8(path),
                ) by {
                    assert(sums0[n - 1].0 == all[i - 1].0);
                    assert(ordering::bytes_le(sorted@[i - 1].key(), sorted@[i as int].key()));
                    if k < n - 1 {
                        let low = vstd::utf8::encode_utf8(sums0[k].0);
                        let mid = vstd::utf8::encode_utf8(sums0[n - 1].0);
                        let high = vstd::utf8::encode_utf8(path);
                        assert(sums0[k].0 != sums0[n - 1].0);
                        assert(ordering::bytes_le(low, mid));
                        ordering::lemma_le_transitive(low, mid, high);
                        if sums0[k].0 == path {
                            ordering::lemma_le_antisymmetric(mid, high);
                            lemma_encode_injective(sums0[n - 1].0, path);
                        }
                    }
                }
                if mentions(before, path) {
                    assert(mentions(sums0, path));
                }
                lemma_unmentioned(before, path);
                lemma_as_counter_add(0, next.count);
            }
            sums.push(FileCount { path: next.path.clone(), count: next.count });
            proof {
                let out = counts_of(sums@);
                assert(out =~= sums0.push((path, next.count)));
                lemma_step_mentions(before, after, sums0, out, path);
                assert(strictly_ascending(out)) by {
                    assert forall|a: int, b: int|
                        #![trigger out[a], out[b]]
                        0 <= a < b < out.len() implies out[a].0 != out[b].0 && ordering::bytes_le(
                        vstd::utf8::encode_utf8(out[a].0),
                        vstd::utf8::encode_utf8(out[b].0),
                    ) by {
                        assert(out[a] == sums0[a]);
                        if b < n {
                            assert(out[b] == sums0[b]);
                        }
                    }
                }
                assert forall|k: int| 0 <= k < out.len() implies (#[trigger] out[k]).1
                    == as_counter(hits_at(after, out[k].0)) by {
                    if k < n {
                        assert(sums0[k].0 != path);
                        assert(sums0[k].1 == as_counter(hits_at(before, sums0[k].0)));
                    }
                }
            }
        }
        i = i + 1;
    }
    assert(all.take(all.len() as int) =~= all);
    sums
}

/// One more report mentions one more path at most.
proof fn lemma_step_mentions(
    before: Seq<(Seq<char>, usize)>,
    after: Seq<(Seq<char>, usize)>,
    sums: Seq<(Seq<char>, usize)>,
    out: Seq<(Seq<char>, usize)>,
    path: Seq<char>,
)
    requires
        after.len() > 0,
        after.drop_last() == before,
        after.last().0 == path,
        out.len() > 0,
        out.last().0 == path,
        sums.len() <= out.len() <= sums.len() + 1,
        forall|k: int| 0 <= k < sums.len() ==> (#[trigger] out[k]).0 == sums[k].0,
        forall|p: Seq<char>| mentions(before, p) <==> #[trigger] mentions(sums, p),
    ensures
        forall|p: Seq<char>| mentions(after, p) <==> #[trigger] mentions(out, p),
{
    assert forall|p: Seq<char>| mentions(after, p) <==> #[trigger] mentions(out, p) by {
        if mentions(after, p) {
            let k = choose|k: int| 0 <= k < after.len() && #[trigger] after[k].0 == p;
            if k < before.len() {
                assert(before[k].0 == p);
                assert(mentions(sums, p));
                let m = choose|m: int| 0 <= m < sums.len() && #[trigger] sums[m].0 == p;
                assert(out[m].0 == p);
            } else {
                assert(out[out.len() - 1].0 == p);
            }
        }
        if mentions(out, p) {
            let k = choose|k: int| 0 <= k < out.len() && #[trigger] out[k].0 == p;
            if k < sums.len() {
                assert(sums[k].0 == p);
                assert(mentions(sums, p));
                let m = choose|m: int| 0 <= m < before.len() && #[trigger] before[m].0 == p;
                assert(after[m].0 == p);
            } else {
                assert(after[after.len() - 1].0 == p);
            }
        }
    }
}

/// A path and its matches as `count` mode shows them: `path: N`.
pub open spec fn count_line(path: Seq<char>, count: usize) -> Seq<char> {
    (path + ": "@ + text::decimal(count as nat)).push('\n')
}

/// The lines of a tally.
pub open spec fn count_lines(tally: Seq<(Seq<char>, usize)>) -> Seq<Seq<char>> {
    tally.map_values(|entry: (Seq<char>, usize)| count_line(entry.0, entry.1))
}

/// The first `n` entries of a tally, or all of them.
pub open spec fn at_most(tally: Seq<(Seq<char>, usize)>, n: usize) -> Seq<(Seq<char>, usize)> {
    if tally.len() > n {
        tally.take(n as int)
    } else {
        tally
    }
}

/// The response of `count` mode for a tally: its first `max_results` entries, as far as whole
/// lines of them fit into `max_bytes` bytes.
pub open spec fn count_response(
    tally: Seq<(Seq<char>, usize)>,
    total: usize,
    errors: crate::tools::common::ErrorView,
    max_results: usize,
    max_bytes: usize,
) -> crate::tools::response::ResponseView {
    let lines = count_lines(at_most(tally, max_results));
    let too_many = tally.len() > max_results;
    let too_long = text::byte_len(text::concat(lines)) > max_bytes;
    crate::tools::response::ResponseView {
        content: text::whole_lines(lines, max_bytes as int),
        truncated: too_many || too_long,
        truncation_reason: if too_many {
            Some("max_results"@)
        } else if too_long {
            Some("byte_cap"@)
        } else {
            None
        },
        match_count: Some(total),
        entry_error_count: Some(errors.entry_errors),
        search_error_count: Some(errors.search_errors),
        first_error: errors.first(),
    }
}

/// Adds up all counts.
fn sum_counts(files: &Vec<FileCount>) -> (total: usize)
    ensures
        total == as_counter(hits_total(counts_of(files@))),
{
    let mut total: usize = 0;
    let ghost all = counts_of(files@);
    let mut i: usize = 0;
    proof {
        assert(all.take(0) =~= Seq::<(Seq<char>, usize)>::empty());
        lemma_as_counter_add(0, 0);
    }
    while i < files.len()
        invariant
            i <= files@.len(),
            all == counts_of(files@),
            total == as_counter(hits_total(all.take(i as int))),
        decreases files@.len() - i,
    {
        proof {
            assert(all.take(i + 1).drop_last() =~= all.take(i as int));
            assert(all.take(i + 1).last() == all[i as int]);
            lemma_as_counter_add(hits_total(all.take(i as int)), files@[i as int].count);
        }
        total = total.wrapping_add(files[i].count);
        i = i + 1;
    }
    assert(all.take(all.len() as int) =~= all);
    total
}

/// Shows the first `shown` entries of `sums`, as far as whole lines fit. Tells also whether a
/// line had to be left out.
fn show_counts(sums: &Vec<FileCount>, shown: usize, max_bytes: usize) -> (out: (String, bool))
    requires
        shown <= sums@.len(),
    ensures
        out.0@ == text::whole_lines(count_lines(counts_of(sums@).take(shown as int)), max_bytes as int),
        out.1 == (text::byte_len(
            text::concat(count_lines(counts_of(sums@).take(shown as int))),
        ) > max_bytes),
{
    let mut output = String::new();
    let ghost lines = count_lines(counts_of(sums@).take(shown as int));
    let mut i: usize = 0;
    proof {
        text::lemma_byte_len_zero(Seq::<char>::empty());
        assert(lines.skip(0) =~= lines);
        assert(lines.take(0) =~= Seq::<Seq<char>>::empty());
        assert(output@ + text::whole_lines(lines, max_bytes as int) =~= text::whole_lines(
            lines,
            max_bytes as int,
        ));
    }
    while i < shown
        invariant
            i <= shown <= sums@.len(),
            lines == count_lines(counts_of(sums@).take(shown as int)),
            output@ == text::concat(lines.take(i as int)),
            text::byte_len(output@) <= max_bytes,
            text::whole_lines(lines, max_bytes as int) == output@ + text::whole_lines(
                lines.skip(i as int),
                max_bytes - text::byte_len(output@),
            ),
        decreases shown - i,
    {
        let entry = &sums[i];
        let mut line = entry.path.clone();
        line.append(": ");
        push_decimal(&mut line, entry.count as u64);
        text::push_newline(&mut line);
        let ghost so_far = output@;
        let ghost rest = lines.skip(i as int);
        assert(lines[i as int] == line@);
        assert(rest[0] == line@);
        assert(rest.skip(1) =~= lines.skip(i + 1));
        assert(lines.take(i + 1).drop_last() =~= lines.take(i as int));
        let used: usize = len_bytes(output.as_str());
        let size: usize = len_bytes(line.as_str());
        proof {
            text::lemma_byte_len_concat(so_far, line@);
        }
        if size > max_bytes - used {
            proof {
                assert(lines =~= lines.take(i + 1) + lines.skip(i + 1));
                text::lemma_concat_join(lines.take(i + 1), lines.skip(i + 1));
                text::lemma_byte_len_concat(so_far + line@, text::concat(lines.skip(i + 1)));
                assert(text::whole_lines(lines, max_bytes as int) =~= so_far);
            }
            return (output, true);
        }
        output.append(line.as_str());
        assert(text::whole_lines(lines, max_bytes as int) =~= output@ + text::whole_lines(
            lines.skip(i + 1),
            max_bytes - text::byte_len(output@),
        ));
        i = i + 1;
    }
    proof {
        assert(lines.take(lines.len() as int) =~= lines);
        assert(lines.skip(lines.len() as int) =~= Seq::<Seq<char>>::empty());
        assert(text::whole_lines(lines, max_bytes as int) =~= output@);
    }
    (output, false)
}

/// The response of `count` mode, once all files are searched: `files` are those with matches, in
/// any order.
pub fn finish_count(
    files: Vec<FileCount>,
    errors: ErrorState,
    max_results: usize,
    max_bytes: usize,
) -> (response: ToolResponse)
    ensures
        exists|tally: Seq<(Seq<char>, usize)>| #[trigger]
            is_tally(counts_of(files@), tally) && response@ == count_response(
                tally,
                as_counter(hits_total(counts_of(files@))),
                errors@,
                max_results,
                max_bytes,
            ),
        text::byte_len(response.content@) <= max_bytes,
{
    let total: usize = sum_counts(&files);
    let sums = tally(files);
    let too_many = sums.len() > max_results;
    let shown: usize = if too_many {
        max_results
    } else {
        sums.len()
    };
    let (content, too_long) = show_counts(&sums, shown, max_bytes);
    let reason = if too_many {
        Some("max_results".to_owned())
    } else if too_long {
        Some("byte_cap".to_owned())
    } else {
        None
    };
    let (entry_errors, search_errors, first_error) = errors.into_metadata();
    proof {
        let all = counts_of(sums@);
        assert(all.take(all.len() as int) =~= all);
        assert(is_tally(counts_of(files@), all));
        text::lemma_whole_lines(count_lines(all.take(shown as int)), max_bytes as int);
    }
    ToolResponse {
        content,
        truncated: too_many || too_long,
        truncation_reason: reason,
        match_count: Some(total),
        entry_error_count: Some(entry_errors),
        search_error_count: Some(search_errors),
        first_error,
    }
}

/// The text of a count response keeps to both caps, and leaves nothing out unless it is marked as
/// truncated.
pub proof fn count_text_is_capped(
    tally: Seq<(Seq<char>, usize)>,
    total: usize,
    errors: crate::tools::common::ErrorView,
    max_results: usize,
    max_bytes: usize,
)
    ensures
        ({
            let response = count_response(tally, total, errors, max_results, max_bytes);
            &&& text::byte_len(response.content) <= max_bytes
            &&& at_most(tally, max_results).len() <= max_results
            &&& response.truncated <==> response.truncation_reason is Some
            &&& !response.truncated ==> response.content == text::concat(count_lines(tally))
        }),
{
    text::lemma_whole_lines(count_lines(at_most(tally, max_results)), max_bytes as int);
}

/// Taking one report out of `files`, as far as the total goes.
proof fn lemma_total_remove(files: Seq<FileCount>, i: int)
    requires
        0 <= i < files.len(),
    ensures
        hits_total(counts_of(files)) == hits_total(counts_of(files.remove(i)))
            + files[i].count as nat,
    decreases files.len(),
{
    let all = counts_of(files);
    let rest = counts_of(files.remove(i));
    if i == files.len() - 1 {
        assert(rest =~= all.drop_last());
    } else {
        lemma_total_remove(files.drop_last(), i);
        assert(counts_of(files.drop_last()) =~= all.drop_last());
        assert(files.drop_last().remove(i) =~= files.remove(i).drop_last());
        assert(counts_of(files.remove(i).drop_last()) =~= rest.drop_last());
        assert(rest.last() == all.last());
    }
}

/// The order of the reports makes no difference to their total.
proof fn lemma_total_permuted(a: Seq<FileCount>, b: Seq<FileCount>)
    requires
        a.to_multiset() == b.to_multiset(),
    ensures
        hits_total(counts_of(a)) == hits_total(counts_of(b)),
    decreases a.len(),
{
    broadcast use vstd::seq_lib::group_to_multiset_ensures;

    assert(a.len() == a.to_multiset().len());
    assert(b.len() == b.to_multiset().len());
    if a.len() > 0 {
        let n = a.len() - 1;
        let x = a.last();
        assert(a.contains(x));
        assert(b.to_multiset().count(x) > 0);
        assert(b.contains(x));
        let j = choose|j: int| 0 <= j < b.len() && b[j] == x;
        assert(a.remove(n).to_multiset() == b.remove(j).to_multiset());
        lemma_total_permuted(a.remove(n), b.remove(j));
        lemma_total_remove(a, n);
        lemma_total_remove(b, j);
    }
}

/// The order in which the searches come back makes no difference to what `count` mode answers.
pub proof fn counting_order_does_not_matter(
    a: Seq<FileCount>,
    b: Seq<FileCount>,
    tally: Seq<(Seq<char>, usize)>,
)
    requires
        a.to_multiset() == b.to_multiset(),
    ensures
        is_tally(counts_of(a), tally) <==> is_tally(counts_of(b), tally),
        hits_total(counts_of(a)) == hits_total(counts_of(b)),
{
    lemma_total_permuted(a, b);
    lemma_tally_permuted(a, b, tally);
    lemma_tally_permuted(b, a, tally);
}

/// A tally of reports is one of the same reports in another order.
proof fn lemma_tally_permuted(
    a: Seq<FileCount>,
    b: Seq<FileCount>,
    tally: Seq<(Seq<char>, usize)>,
)
    requires
        a.to_multiset() == b.to_multiset(),
    ensures
        is_tally(counts_of(a), tally) ==> is_tally(counts_of(b), tally),
{
    if is_tally(counts_of(a), tally) {
        assert forall|path: Seq<char>| mentions(counts_of(b), path) <==> #[trigger] mentions(
            tally,
            path,
        ) by {
            assert(mentions(counts_of(a), path) <==> mentions(tally, path));
            if mentions(counts_of(a), path) {
                lemma_mentions_permuted(a, b, path);
            }
            if mentions(counts_of(b), path) {
                lemma_mentions_permuted(b, a, path);
            }
        }
        assert forall|i: int| 0 <= i < tally.len() implies (#[trigger] tally[i]).1 == as_counter(
            hits_at(counts_of(b), tally[i].0),
        ) by {
            lemma_hits_permuted(a, b, tally[i].0);
        }
    }
}

} // verus!
