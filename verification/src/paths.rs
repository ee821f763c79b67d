//! Unix paths as byte strings: their components, names and extensions.

use vstd::prelude::*;

verus! {

/// The path separator.
pub const SLASH: u8 = 47;

/// The byte that sets off an extension.
pub const DOT: u8 = 46;

/// The byte strings held by `v`.
pub open spec fn pieces_of(v: Seq<Vec<u8>>) -> Seq<Seq<u8>> {
    v.map_values(|piece: Vec<u8>| piece@)
}

/// The pieces of `p` between its separators, empty ones included.
pub open spec fn split_slash(p: Seq<u8>) -> Seq<Seq<u8>>
    decreases p.len(),
{
    if p.len() == 0 {
        seq![Seq::empty()]
    } else {
        let done = split_slash(p.drop_last());
        if p.last() == SLASH {
            done.push(Seq::empty())
        } else {
            done.drop_last().push(done.last().push(p.last()))
        }
    }
}

/// Whether the piece at position `i` of a path names something: not if it is empty, nor if it
/// is a `.` behind the start.
pub open spec fn is_named(piece: Seq<u8>, i: int) -> bool {
    piece.len() > 0 && (piece != seq![DOT] || i == 0)
}

/// The pieces that name something, in order.
pub open spec fn named_pieces(pieces: Seq<Seq<u8>>) -> Seq<Seq<u8>>
    decreases pieces.len(),
{
    if pieces.len() == 0 {
        Seq::empty()
    } else {
        let before = named_pieces(pieces.drop_last());
        if is_named(pieces.last(), pieces.len() - 1) {
            before.push(pieces.last())
        } else {
            before
        }
    }
}

/// Whether `p` starts at the root directory.
pub open spec fn is_rooted(p: Seq<u8>) -> bool {
    p.len() > 0 && p[0] == SLASH
}

/// The components of `p`: the root directory, where `p` starts there, and then the pieces that
/// name something.
pub open spec fn components(p: Seq<u8>) -> Seq<Seq<u8>> {
    if is_rooted(p) {
        seq![seq![SLASH]] + named_pieces(split_slash(p))
    } else {
        named_pieces(split_slash(p))
    }
}

/// Whether `p` is `root` or lies below it, component by component.
pub open spec fn is_within(p: Seq<u8>, root: Seq<u8>) -> bool {
    components(root).is_prefix_of(components(p))
}

/// The last component of `p`, where that is a name.
pub open spec fn name_of(p: Seq<u8>) -> Option<Seq<u8>> {
    let parts = components(p);
    if parts.len() == 0 || parts.last() == seq![SLASH] || parts.last() == seq![DOT]
        || parts.last() == seq![DOT, DOT] {
        None
    } else {
        Some(parts.last())
    }
}

/// The position of the last dot of `name`, or -1.
pub open spec fn last_dot(name: Seq<u8>) -> int
    decreases name.len(),
{
    if name.len() == 0 {
        -1
    } else if name.last() == DOT {
        name.len() - 1
    } else {
        last_dot(name.drop_last())
    }
}

/// What follows the last dot of the file name `name`, unless the name starts with that dot.
pub open spec fn extension_of_name(name: Seq<u8>) -> Option<Seq<u8>> {
    if last_dot(name) <= 0 {
        None
    } else {
        Some(name.skip(last_dot(name) + 1))
    }
}

/// The extension of the last component of `p`.
pub open spec fn extension_of(p: Seq<u8>) -> Option<Seq<u8>> {
    match name_of(p) {
        Some(name) => extension_of_name(name),
        None => None,
    }
}

/// Whether two byte strings are equal.
pub fn same_bytes(a: &[u8], b: &[u8]) -> (same: bool)
    ensures
        same == (a@ == b@),
{
    if a.len() != b.len() {
        return false;
    }
    let mut i: usize = 0;
    while i < a.len()
        invariant
            a@.len() == b@.len(),
            i <= a@.len(),
            forall|k: int| 0 <= k < i ==> a@[k] == b@[k],
        decreases a@.len() - i,
    {
        if a[i] != b[i] {
            return false;
        }
        i = i + 1;
    }
    assert(a@ =~= b@);
    true
}

/// Splits `p` at its separators.
fn split(p: &[u8]) -> (pieces: Vec<Vec<u8>>)
    ensures
        pieces_of(pieces@) == split_slash(p@),
{
    let mut done: Vec<Vec<u8>> = Vec::new();
    let mut current: Vec<u8> = Vec::new();
    let mut i: usize = 0;
    proof {
        assert(p@.take(0) =~= Seq::<u8>::empty());
        assert(pieces_of(done@).push(current@) =~= split_slash(p@.take(0)));
    }
    while i < p.len()
        invariant
            i <= p@.len(),
            pieces_of(done@).push(current@) == split_slash(p@.take(i as int)),
        decreases p@.len() - i,
    {
        let byte: u8 = p[i];
        let ghost before = p@.take(i as int);
        let ghost after = p@.take(i + 1);
        assert(after.drop_last() =~= before);
        assert(after.last() == byte);
        let ghost old_done = done@;
        let ghost old_current = current@;
        assert(pieces_of(old_done).push(old_current).drop_last() =~= pieces_of(old_done));
        if byte == SLASH {
            done.push(current);
            current = Vec::new();
            assert(pieces_of(done@) =~= pieces_of(old_done).push(old_current));
            assert(current@ =~= Seq::<u8>::empty());
        } else {
            current.push(byte);
        }
        i = i + 1;
    }
    let ghost old_done = done@;
    let ghost last = current@;
    done.push(current);
    proof {
        assert(p@.take(p@.len() as int) =~= p@);
        assert(pieces_of(done@) =~= pieces_of(old_done).push(last));
    }
    done
}

/// The components of `p`.
fn split_components(p: &[u8]) -> (parts: Vec<Vec<u8>>)
    ensures
        pieces_of(parts@) == components(p@),
{
    let mut pieces = split(p);
    let ghost all = pieces_of(pieces@);
    let mut parts: Vec<Vec<u8>> = Vec::new();
    let ghost prefix: Seq<Seq<u8>> = if is_rooted(p@) {
        seq![seq![SLASH]]
    } else {
        Seq::empty()
    };
    if p.len() > 0 && p[0] == SLASH {
        let mut root: Vec<u8> = Vec::new();
        root.push(SLASH);
        assert(root@ =~= seq![SLASH]);
        parts.push(root);
    }
    assert(pieces_of(parts@) =~= prefix);
    assert(all.take(0) =~= Seq::<Seq<u8>>::empty());
    let mut i: usize = 0;
    assert(prefix =~= prefix + named_pieces(all.take(0)));
    while i < pieces.len()
        invariant
            i <= pieces@.len(),
            all == pieces_of(pieces@),
            pieces_of(parts@) == prefix + named_pieces(all.take(i as int)),
        decreases pieces@.len() - i,
    {
        assert(all.take(i + 1).drop_last() =~= all.take(i as int));
        assert(all.take(i + 1).last() == pieces@[i as int]@);
        let piece = &pieces[i];
        let ghost old_parts = parts@;
        let lone_dot = piece.len() == 1 && piece[0] == DOT;
        proof {
            if lone_dot {
                assert(piece@ =~= seq![DOT]);
            }
        }
        if piece.len() > 0 && (!lone_dot || i == 0) {
            let copy = copy_bytes(piece.as_slice());
            parts.push(copy);
            assert(pieces_of(parts@) =~= pieces_of(old_parts).push(all[i as int]));
            assert(pieces_of(parts@) =~= prefix + named_pieces(all.take(i + 1)));
        }
        i = i + 1;
    }
    assert(all.take(all.len() as int) =~= all);
    assert(pieces_of(parts@) =~= components(p@));
    parts
}

/// A copy of `bytes`.
pub fn copy_bytes(bytes: &[u8]) -> (copy: Vec<u8>)
    ensures
        copy@ == bytes@,
{
    vstd::slice::slice_to_vec(bytes)
}

/// Whether `p` is `root` or lies below it.
pub fn within(p: &[u8], root: &[u8]) -> (inside: bool)
    ensures
        inside == is_within(p@, root@),
{
    let parts = split_components(p);
    let base = split_components(root);
    proof {
        assert(components(p@).len() == parts@.len());
        assert(components(root@).len() == base@.len());
    }
    if base.len() > parts.len() {
        return false;
    }
    let mut i: usize = 0;
    while i < base.len()
        invariant
            i <= base@.len() <= parts@.len(),
            pieces_of(parts@) == components(p@),
            pieces_of(base@) == components(root@),
            forall|k: int| 0 <= k < i ==> components(root@)[k] == components(p@)[k],
        decreases base@.len() - i,
    {
        assert(components(root@)[i as int] == base@[i as int]@);
        assert(components(p@)[i as int] == parts@[i as int]@);
        if !same_bytes(base[i].as_slice(), parts[i].as_slice()) {
            return false;
        }
        i = i + 1;
    }
    assert(components(root@) =~= components(p@).take(base@.len() as int));
    true
}

/// The last component of `p`, where that is a name.
pub fn file_name(p: &[u8]) -> (name: Option<Vec<u8>>)
    ensures
        match name {
            Some(n) => name_of(p@) == Some(n@),
            None => name_of(p@) is None,
        },
{
    let mut parts = split_components(p);
    let ghost all = components(p@);
    assert(all.len() == parts@.len());
    match parts.pop() {
        None => None,
        Some(last) => {
            assert(all.last() == last@);
            let lone = last.len() == 1 && (last[0] == SLASH || last[0] == DOT);
            let double = last.len() == 2 && last[0] == DOT && last[1] == DOT;
            proof {
                assert(lone ==> last@ =~= seq![SLASH] || last@ =~= seq![DOT]);
                assert(double ==> last@ =~= seq![DOT, DOT]);
            }
            if lone || double {
                None
            } else {
                Some(last)
            }
        },
    }
}

/// The extension of the last component of `p`.
pub fn extension(p: &[u8]) -> (ext: Option<Vec<u8>>)
    ensures
        match ext {
            Some(e) => extension_of(p@) == Some(e@),
            None => extension_of(p@) is None,
        },
{
    match file_name(p) {
        None => None,
        Some(name) => name_extension(name.as_slice()),
    }
}

/// What follows the last dot of `name`, unless the name starts with that dot.
pub fn name_extension(name: &[u8]) -> (ext: Option<Vec<u8>>)
    ensures
        match ext {
            Some(e) => extension_of_name(name@) == Some(e@),
            None => extension_of_name(name@) is None,
        },
{
    let mut i: usize = name.len();
    assert(name@.take(i as int) =~= name@);
    while i > 0
        invariant
            i <= name@.len(),
            last_dot(name@) == last_dot(name@.take(i as int)),
        decreases i,
    {
        assert(name@.take(i as int).drop_last() =~= name@.take(i - 1));
        if name[i - 1] == DOT {
            if i == 1 {
                return None;
            }
            assert(last_dot(name@) == i - 1);
            assert(name@.subrange(i as int, name@.len() as int) =~= name@.skip(i as int));
            return Some(copy_bytes(vstd::slice::slice_subrange(name, i, name.len())));
        }
        i = i - 1;
    }
    None
}

/// The path of `name` in the directory `dir`. The name must not start at the root directory.
pub open spec fn joined(dir: Seq<u8>, name: Seq<u8>) -> Seq<u8> {
    if dir.len() == 0 || dir.last() == SLASH {
        dir + name
    } else {
        dir.push(SLASH) + name
    }
}

/// The path of `name` in the directory `dir`.
pub fn join(dir: &[u8], name: &[u8]) -> (path: Vec<u8>)
    ensures
        path@ == joined(dir@, name@),
{
    let mut path = copy_bytes(dir);
    if dir.len() > 0 && dir[dir.len() - 1] != SLASH {
        path.push(SLASH);
    }
    path.extend_from_slice(name);
    path
}

/// A name without separators is one more piece behind a separator.
pub proof fn lemma_split_name(dir: Seq<u8>, name: Seq<u8>)
    requires
        dir.len() > 0,
        dir.last() == SLASH,
        forall|i: int| 0 <= i < name.len() ==> name[i] != SLASH,
    ensures
        split_slash(dir).len() > 0,
        split_slash(dir).last() == Seq::<u8>::empty(),
        split_slash(dir + name) == split_slash(dir).drop_last().push(name),
    decreases name.len(),
{
    let pieces = split_slash(dir);
    if name.len() == 0 {
        assert(dir + name =~= dir);
        assert(name =~= Seq::<u8>::empty());
        assert(pieces == split_slash(dir.drop_last()).push(Seq::<u8>::empty()));
        assert(pieces =~= pieces.drop_last().push(name));
    } else {
        let init = name.drop_last();
        lemma_split_name(dir, init);
        assert((dir + name).drop_last() =~= dir + init);
        assert((dir + name).last() == name.last());
        assert(pieces.drop_last().push(init).drop_last() =~= pieces.drop_last());
        assert(init.push(name.last()) =~= name);
    }
}

/// A path has a piece.
pub proof fn lemma_split_nonempty(p: Seq<u8>)
    ensures
        split_slash(p).len() > 0,
    decreases p.len(),
{
    if p.len() > 0 {
        lemma_split_nonempty(p.drop_last());
    }
}

/// What is joined to a directory by a name without separators lies in that directory, but for the
/// name of its parent.
pub proof fn joined_is_within(dir: Seq<u8>, name: Seq<u8>)
    requires
        dir.len() > 0,
        forall|i: int| 0 <= i < name.len() ==> name[i] != SLASH,
        name != seq![DOT, DOT],
    ensures
        is_within(joined(dir, name), dir),
{
    let base = if dir.last() == SLASH {
        dir
    } else {
        dir.push(SLASH)
    };
    let path = joined(dir, name);
    assert(path =~= base + name);
    lemma_split_name(base, name);
    lemma_split_nonempty(dir);
    let before = split_slash(base).drop_last();
    assert(split_slash(base) =~= before.push(Seq::<u8>::empty()));
    assert(split_slash(path) =~= before.push(name));
    if dir.last() != SLASH {
        assert(base.drop_last() =~= dir);
        assert(before =~= split_slash(dir));
    }
    assert(before.push(name).drop_last() =~= before);
    assert(before.push(Seq::<u8>::empty()).drop_last() =~= before);
    assert(named_pieces(split_slash(dir)) == named_pieces(before));
    assert(named_pieces(before).is_prefix_of(named_pieces(before.push(name))));
    assert(components(dir).is_prefix_of(components(path)));
}

} // verus!
