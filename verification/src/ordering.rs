//! Byte strings in lexicographic order, and sorting by them.

use vstd::prelude::*;

use crate::paths;

verus! {

/// Whether `a` comes before `b` or is equal to it, byte by byte.
pub open spec fn bytes_le(a: Seq<u8>, b: Seq<u8>) -> bool
    decreases a.len(),
{
    if a.len() == 0 {
        true
    } else if b.len() == 0 {
        false
    } else if a[0] != b[0] {
        a[0] < b[0]
    } else {
        bytes_le(a.skip(1), b.skip(1))
    }
}

/// Byte order is total.
pub proof fn lemma_le_total(a: Seq<u8>, b: Seq<u8>)
    ensures
        bytes_le(a, b) || bytes_le(b, a),
    decreases a.len(),
{
    if a.len() > 0 && b.len() > 0 && a[0] == b[0] {
        lemma_le_total(a.skip(1), b.skip(1));
    }
}

/// Byte order is transitive.
pub proof fn lemma_le_transitive(a: Seq<u8>, b: Seq<u8>, c: Seq<u8>)
    requires
        bytes_le(a, b),
        bytes_le(b, c),
    ensures
        bytes_le(a, c),
    decreases a.len(),
{
    if a.len() > 0 && b.len() > 0 && c.len() > 0 && a[0] == b[0] && b[0] == c[0] {
        lemma_le_transitive(a.skip(1), b.skip(1), c.skip(1));
    }
}

/// Byte order tells different strings apart.
pub proof fn lemma_le_antisymmetric(a: Seq<u8>, b: Seq<u8>)
    requires
        bytes_le(a, b),
        bytes_le(b, a),
    ensures
        a == b,
    decreases a.len(),
{
    if a.len() > 0 && b.len() > 0 {
        lemma_le_antisymmetric(a.skip(1), b.skip(1));
        assert(a =~= seq![a[0]] + a.skip(1));
        assert(b =~= seq![b[0]] + b.skip(1));
    } else {
        assert(a =~= b);
    }
}

/// Whether `a` comes before `b` or is equal to it.
pub fn not_after(a: &[u8], b: &[u8]) -> (le: bool)
    ensures
        le == bytes_le(a@, b@),
{
    let mut i: usize = 0;
    assert(a@.skip(0) =~= a@);
    assert(b@.skip(0) =~= b@);
    while i < a.len() && i < b.len()
        invariant
            i <= a@.len(),
            i <= b@.len(),
            bytes_le(a@, b@) == bytes_le(a@.skip(i as int), b@.skip(i as int)),
        decreases a@.len() - i,
    {
        if a[i] != b[i] {
            return a[i] < b[i];
        }
        assert(a@.skip(i as int).skip(1) =~= a@.skip(i + 1));
        assert(b@.skip(i as int).skip(1) =~= b@.skip(i + 1));
        i = i + 1;
    }
    i == a.len()
}

/// Something that is sorted by a byte string.
pub trait SortKey: Sized {
    /// The byte string that places it.
    spec fn key(&self) -> Seq<u8>;

    /// The byte string that places it.
    fn key_bytes(&self) -> (bytes: &[u8])
        ensures
            bytes@ == self.key(),
    ;
}

/// Whether the keys of `s` ascend.
pub open spec fn ascending<T: SortKey>(s: Seq<T>) -> bool {
    forall|i: int, j: int| 0 <= i <= j < s.len() ==> #[trigger] bytes_le(s[i].key(), s[j].key())
}

/// Whether the keys of `s` descend.
spec fn descending<T: SortKey>(s: Seq<T>) -> bool {
    forall|i: int, j: int| 0 <= i <= j < s.len() ==> #[trigger] bytes_le(s[j].key(), s[i].key())
}

/// Whether every key of `low` is at most every key of `high`.
spec fn below<T: SortKey>(low: Seq<T>, high: Seq<T>) -> bool {
    forall|i: int, j: int|
        0 <= i < low.len() && 0 <= j < high.len() ==> #[trigger] bytes_le(
            low[i].key(),
            high[j].key(),
        )
}

/// Moves the last item of `from`, which is at most every item of `out`, behind `out`.
fn move_last<T: SortKey>(from: &mut Vec<T>, out: &mut Vec<T>)
    requires
        old(from)@.len() > 0,
        ascending(old(from)@),
        descending(old(out)@),
        below(old(from)@, old(out)@),
    ensures
        final(from)@ == old(from)@.drop_last(),
        final(out)@ == old(out)@.push(old(from)@.last()),
        ascending(final(from)@),
        descending(final(out)@),
        below(final(from)@, final(out)@),
        final(from)@.to_multiset().add(final(out)@.to_multiset()) == old(from)@.to_multiset().add(
            old(out)@.to_multiset(),
        ),
{
    broadcast use vstd::seq_lib::group_to_multiset_ensures;

    let ghost from0 = from@;
    let ghost out0 = out@;
    match from.pop() {
        Some(item) => {
            out.push(item);
            proof {
                assert(from0 =~= from@.push(item));
                assert(from@.to_multiset().add(out@.to_multiset()) =~= from0.to_multiset().add(
                    out0.to_multiset(),
                ));
                let last = from0.len() - 1;
                assert(from0[last] == item);
                assert forall|i: int, j: int| 0 <= i <= j < out@.len() implies #[trigger] bytes_le(
                    out@[j].key(),
                    out@[i].key(),
                ) by {
                    if j == out0.len() {
                        if i < j {
                            assert(bytes_le(from0[last].key(), out0[i].key()));
                        } else {
                            assert(bytes_le(from0[last].key(), from0[last].key()));
                        }
                    } else {
                        assert(bytes_le(out0[j].key(), out0[i].key()));
                    }
                }
                assert forall|i: int, j: int|
                    0 <= i < from@.len() && 0 <= j < out@.len() implies #[trigger] bytes_le(
                    from@[i].key(),
                    out@[j].key(),
                ) by {
                    if j == out0.len() {
                        assert(bytes_le(from0[i].key(), from0[last].key()));
                    } else {
                        assert(bytes_le(from0[i].key(), out0[j].key()));
                    }
                }
                assert forall|i: int, j: int| 0 <= i <= j < from@.len() implies #[trigger] bytes_le(
                    from@[i].key(),
                    from@[j].key(),
                ) by {
                    assert(bytes_le(from0[i].key(), from0[j].key()));
                }
            }
        },
        None => {},
    }
}

/// Merges two ascending runs.
fn merge<T: SortKey>(left: Vec<T>, right: Vec<T>) -> (merged: Vec<T>)
    requires
        ascending(left@),
        ascending(right@),
    ensures
        ascending(merged@),
        merged@.to_multiset() == left@.to_multiset().add(right@.to_multiset()),
{
    broadcast use vstd::seq_lib::group_to_multiset_ensures;

    let mut l = left;
    let mut r = right;
    let mut out: Vec<T> = Vec::new();
    let ghost total = left@.to_multiset().add(right@.to_multiset());
    assert(l@.to_multiset().add(r@.to_multiset()).add(out@.to_multiset()) =~= total);
    while l.len() > 0 && r.len() > 0
        invariant
            ascending(l@),
            ascending(r@),
            descending(out@),
            below(l@, out@),
            below(r@, out@),
            l@.to_multiset().add(r@.to_multiset()).add(out@.to_multiset()) == total,
        decreases l@.len() + r@.len(),
    {
        let ghost l0 = l@;
        let ghost r0 = r@;
        let ghost out0 = out@;
        let from_right = not_after(l[l.len() - 1].key_bytes(), r[r.len() - 1].key_bytes());
        proof {
            lemma_le_total(l@.last().key(), r@.last().key());
        }
        if from_right {
            move_last(&mut r, &mut out);
            assert forall|i: int, j: int| 0 <= i < l@.len() && 0 <= j < out@.len() implies
                #[trigger] bytes_le(l@[i].key(), out@[j].key()) by {
                if j == out0.len() {
                    let last = l0.len() - 1;
                    assert(bytes_le(l0[i].key(), l0[last].key()));
                    lemma_le_transitive(l0[i].key(), l0[last].key(), r0.last().key());
                } else {
                    assert(bytes_le(l0[i].key(), out0[j].key()));
                }
            }
        } else {
            move_last(&mut l, &mut out);
            assert forall|i: int, j: int| 0 <= i < r@.len() && 0 <= j < out@.len() implies
                #[trigger] bytes_le(r@[i].key(), out@[j].key()) by {
                if j == out0.len() {
                    let last = r0.len() - 1;
                    assert(bytes_le(r0[i].key(), r0[last].key()));
                    lemma_le_transitive(r0[i].key(), r0[last].key(), l0.last().key());
                } else {
                    assert(bytes_le(r0[i].key(), out0[j].key()));
                }
            }
        }
        assert(l@.to_multiset().add(r@.to_multiset()).add(out@.to_multiset()) =~= total) by {
            assert(l@.to_multiset().add(r@.to_multiset()).add(out@.to_multiset())
                =~= l0.to_multiset().add(r0.to_multiset()).add(out0.to_multiset())) by {
                if from_right {
                    assert(r@.to_multiset().add(out@.to_multiset()) == r0.to_multiset().add(
                        out0.to_multiset(),
                    ));
                    assert(l@.to_multiset().add(r@.to_multiset()).add(out@.to_multiset())
                        =~= l@.to_multiset().add(r@.to_multiset().add(out@.to_multiset())));
                    assert(l0.to_multiset().add(r0.to_multiset()).add(out0.to_multiset())
                        =~= l0.to_multiset().add(r0.to_multiset().add(out0.to_multiset())));
                } else {
                    assert(l@.to_multiset().add(r@.to_multiset()).add(out@.to_multiset())
                        =~= r@.to_multiset().add(l@.to_multiset().add(out@.to_multiset())));
                    assert(l0.to_multiset().add(r0.to_multiset()).add(out0.to_multiset())
                        =~= r0.to_multiset().add(l0.to_multiset().add(out0.to_multiset())));
                }
            }
        }
    }
    let mut rest = if l.len() > 0 {
        l
    } else {
        r
    };
    proof {
        let empty = Seq::<T>::empty();
        assert(l@.len() == 0 ==> l@ =~= empty);
        assert(r@.len() == 0 ==> r@ =~= empty);
        assert(empty.to_multiset() =~= vstd::multiset::Multiset::empty());
        assert(rest@.to_multiset().add(out@.to_multiset()) =~= total);
    }
    while rest.len() > 0
        invariant
            ascending(rest@),
            descending(out@),
            below(rest@, out@),
            rest@.to_multiset().add(out@.to_multiset()) == total,
        decreases rest@.len(),
    {
        move_last(&mut rest, &mut out);
    }
    assert(rest@ =~= Seq::<T>::empty());
    assert(out@.to_multiset() =~= total);
    reversed(out)
}

/// A descending run the other way round.
fn reversed<T: SortKey>(run: Vec<T>) -> (turned: Vec<T>)
    requires
        descending(run@),
    ensures
        ascending(turned@),
        turned@.to_multiset() == run@.to_multiset(),
{
    broadcast use vstd::seq_lib::group_to_multiset_ensures;

    let mut run = run;
    let ghost all = run@;
    let mut turned: Vec<T> = Vec::new();
    assert(run@.to_multiset().add(turned@.to_multiset()) =~= all.to_multiset());
    while run.len() > 0
        invariant
            descending(run@),
            ascending(turned@),
            below(turned@, run@),
            run@.to_multiset().add(turned@.to_multiset()) == all.to_multiset(),
        decreases run@.len(),
    {
        let ghost run0 = run@;
        let ghost turned0 = turned@;
        match run.pop() {
            Some(item) => {
                turned.push(item);
                assert(run0 =~= run@.push(item));
                assert(run0.to_multiset() == run@.to_multiset().insert(item) && turned@.to_multiset()
                    == turned0.to_multiset().insert(item)) by {
                    broadcast use vstd::seq_lib::group_to_multiset_ensures;

                }
                assert(run@.to_multiset().add(turned@.to_multiset()) =~= run0.to_multiset().add(
                    turned0.to_multiset(),
                ));
                let ghost last = run0.len() - 1;
                assert(run0[last] == item);
                assert forall|i: int, j: int| 0 <= i <= j < turned@.len() implies
                    #[trigger] bytes_le(turned@[i].key(), turned@[j].key()) by {
                    if j == turned0.len() {
                        if i < j {
                            assert(bytes_le(turned0[i].key(), run0[last].key()));
                        } else {
                            assert(bytes_le(run0[last].key(), run0[last].key()));
                        }
                    } else {
                        assert(bytes_le(turned0[i].key(), turned0[j].key()));
                    }
                }
                assert forall|i: int, j: int|
                    0 <= i < turned@.len() && 0 <= j < run@.len() implies #[trigger] bytes_le(
                    turned@[i].key(),
                    run@[j].key(),
                ) by {
                    if i == turned0.len() {
                        assert(bytes_le(run0[last].key(), run0[j].key()));
                    } else {
                        assert(bytes_le(turned0[i].key(), run0[j].key()));
                    }
                }
                assert forall|i: int, j: int| 0 <= i <= j < run@.len() implies
                    #[trigger] bytes_le(run@[j].key(), run@[i].key()) by {
                    assert(bytes_le(run0[j].key(), run0[i].key()));
                }
            },
            None => {},
        }
    }
    assert(run@ =~= Seq::<T>::empty());
    assert(turned@.to_multiset() =~= all.to_multiset());
    turned
}

/// Sorts by key.
pub fn sort_by_key<T: SortKey>(items: Vec<T>) -> (sorted: Vec<T>)
    ensures
        ascending(sorted@),
        sorted@.to_multiset() == items@.to_multiset(),
    decreases items@.len(),
{
    let mut items = items;
    if items.len() <= 1 {
        proof {
            if items@.len() == 1 {
                lemma_le_total(items@[0].key(), items@[0].key());
            }
        }
        return items;
    }
    let ghost all = items@;
    let half: usize = items.len() / 2;
    let right = items.split_off(half);
    proof {
        assert(all =~= items@ + right@);
        vstd::seq_lib::lemma_multiset_commutative(items@, right@);
    }
    let left_sorted = sort_by_key(items);
    let right_sorted = sort_by_key(right);
    merge(left_sorted, right_sorted)
}

impl SortKey for Vec<u8> {
    open spec fn key(&self) -> Seq<u8> {
        self@
    }

    fn key_bytes(&self) -> (bytes: &[u8]) {
        self.as_slice()
    }
}

/// Whether `sorted` is `all` in ascending order.
pub open spec fn is_sorted_form(all: Seq<Seq<u8>>, sorted: Seq<Seq<u8>>) -> bool {
    &&& forall|i: int, j: int|
        0 <= i <= j < sorted.len() ==> bytes_le(#[trigger] sorted[i], #[trigger] sorted[j])
    &&& sorted.to_multiset() == all.to_multiset()
}

/// There is only one way to put byte strings in ascending order.
pub proof fn sorted_form_is_unique(all: Seq<Seq<u8>>, a: Seq<Seq<u8>>, b: Seq<Seq<u8>>)
    requires
        is_sorted_form(all, a),
        is_sorted_form(all, b),
    ensures
        a == b,
    decreases a.len(),
{
    broadcast use vstd::seq_lib::group_to_multiset_ensures;

    assert(a.len() == a.to_multiset().len());
    assert(b.len() == b.to_multiset().len());
    if a.len() == 0 {
        assert(a =~= b);
    } else {
        let x = a.last();
        let y = b.last();
        assert(a.contains(x) && b.contains(y));
        assert(b.to_multiset().count(x) > 0 && a.to_multiset().count(y) > 0);
        assert(b.contains(x) && a.contains(y));
        let i = choose|i: int| 0 <= i < b.len() && b[i] == x;
        let j = choose|j: int| 0 <= j < a.len() && a[j] == y;
        assert(bytes_le(b[i], b[b.len() - 1]));
        assert(bytes_le(a[j], a[a.len() - 1]));
        lemma_le_antisymmetric(x, y);
        let n = a.len() - 1;
        assert(a.remove(n) =~= a.drop_last());
        assert(b.remove(n) =~= b.drop_last());
        assert(a.remove(n).to_multiset() == b.remove(n).to_multiset());
        sorted_form_is_unique(a.drop_last(), a.drop_last(), b.drop_last());
        assert(a =~= a.drop_last().push(x));
        assert(b =~= b.drop_last().push(y));
    }
}

/// Equal collections of vectors hold equal collections of byte strings.
proof fn lemma_pieces_permuted(a: Seq<Vec<u8>>, b: Seq<Vec<u8>>)
    requires
        a.to_multiset() == b.to_multiset(),
    ensures
        paths::pieces_of(a).to_multiset() == paths::pieces_of(b).to_multiset(),
    decreases a.len(),
{
    broadcast use vstd::seq_lib::group_to_multiset_ensures;

    assert(a.len() == a.to_multiset().len());
    assert(b.len() == b.to_multiset().len());
    if a.len() == 0 {
        assert(paths::pieces_of(a) =~= paths::pieces_of(b));
    } else {
        let n = a.len() - 1;
        let x = a.last();
        assert(a.contains(x));
        assert(b.to_multiset().count(x) > 0);
        assert(b.contains(x));
        let j = choose|j: int| 0 <= j < b.len() && b[j] == x;
        assert(a.remove(n).to_multiset() == b.remove(j).to_multiset());
        lemma_pieces_permuted(a.remove(n), b.remove(j));
        let pa = paths::pieces_of(a);
        let pb = paths::pieces_of(b);
        assert(paths::pieces_of(a.remove(n)) =~= pa.remove(n));
        assert(paths::pieces_of(b.remove(j)) =~= pb.remove(j));
        assert(pa[n] == x@ && pb[j] == x@);
        assert(pa.contains(x@) && pb.contains(x@));
        assert(pa.to_multiset().count(x@) > 0 && pb.to_multiset().count(x@) > 0);
        assert(pa.to_multiset() =~= pa.remove(n).to_multiset().insert(x@));
        assert(pb.to_multiset() =~= pb.remove(j).to_multiset().insert(x@));
    }
}

/// Sorts byte strings.
pub fn sort_bytes(items: Vec<Vec<u8>>) -> (sorted: Vec<Vec<u8>>)
    ensures
        is_sorted_form(paths::pieces_of(items@), paths::pieces_of(sorted@)),
{
    let ghost all = items@;
    let sorted = sort_by_key(items);
    proof {
        lemma_pieces_permuted(sorted@, all);
        let pieces = paths::pieces_of(sorted@);
        assert forall|i: int, j: int| 0 <= i <= j < pieces.len() implies bytes_le(
            #[trigger] pieces[i],
            #[trigger] pieces[j],
        ) by {
            assert(bytes_le(sorted@[i].key(), sorted@[j].key()));
        }
    }
    sorted
}

} // verus!
