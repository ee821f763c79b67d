//! Components, names, extensions, containment, and the order of byte strings.

use vstd::prelude::*;

use crate::ordering;
use crate::paths;

verus! {

/// Whether no byte of `name` is a slash.
pub open spec fn is_one_piece(name: Seq<u8>) -> bool {
    forall|i: int| 0 <= i < name.len() ==> name[i] != 47
}

/// Whether `name` can be the name of something in a directory: one piece, not empty, and not the
/// dot that stands for the directory itself.
pub open spec fn is_component(name: Seq<u8>) -> bool {
    is_one_piece(name) && name.len() > 0 && name != seq![46u8]
}

/// The components of a path, from its end: what comes behind a slash is one more component, unless
/// there is nothing there or a dot. A slash at the start is a component of its own, and a path
/// without slashes is its only component.
pub proof fn components_come_one_by_one(dir: Seq<u8>, name: Seq<u8>)
    requires
        is_one_piece(name),
    ensures
        dir.len() > 0 && is_component(name) ==> paths::components(dir + seq![47u8] + name)
            == paths::components(dir) + seq![name],
        dir.len() > 0 && !is_component(name) ==> paths::components(dir + seq![47u8] + name)
            == paths::components(dir),
        is_component(name) ==> paths::components(seq![47u8] + name) == seq![seq![47u8], name],
        !is_component(name) ==> paths::components(seq![47u8] + name) == seq![seq![47u8]],
        name.len() > 0 ==> paths::components(name) == seq![name],
        name.len() == 0 ==> paths::components(name) == Seq::<Seq<u8>>::empty(),
{
    let none = Seq::<Seq<u8>>::empty();
    let empty = Seq::<u8>::empty();
    // Behind a slash that follows something.
    let base = dir.push(47u8);
    assert(dir + seq![47u8] + name =~= base + name);
    assert(base.drop_last() =~= dir);
    paths::lemma_split_name(base, name);
    paths::lemma_split_nonempty(dir);
    let before = paths::split_slash(dir);
    assert(paths::split_slash(base).drop_last() =~= before);
    assert(before.push(name).drop_last() =~= before);
    assert(paths::named_pieces(before.push(name)) == if is_component(name) {
        paths::named_pieces(before).push(name)
    } else {
        paths::named_pieces(before)
    });
    if dir.len() > 0 {
        assert(paths::is_rooted(base + name) == paths::is_rooted(dir));
        if is_component(name) {
            assert(paths::components(base + name) =~= paths::components(dir) + seq![name]);
        }
    }
    // Behind a slash at the start.
    let root = seq![47u8];
    assert(root.drop_last() =~= empty);
    paths::lemma_split_name(root, name);
    let first = seq![empty];
    assert(paths::split_slash(root.drop_last()) =~= first);
    assert(paths::split_slash(root).drop_last() =~= first);
    assert(first.push(name).drop_last() =~= first);
    assert(first.drop_last() =~= none);
    assert(paths::named_pieces(first.drop_last()) =~= none);
    assert(paths::named_pieces(first) =~= none);
    if is_component(name) {
        assert(paths::components(root + name) =~= seq![seq![47u8], name]);
    } else {
        assert(paths::components(root + name) =~= seq![seq![47u8]]);
    }
    // Without a slash.
    lemma_single_piece(name);
    let only = seq![name];
    assert(only.drop_last() =~= none);
    assert(paths::named_pieces(only.drop_last()) =~= none);
    if name.len() > 0 {
        assert(name[0] != 47);
        assert(paths::components(name) =~= seq![name]);
    } else {
        assert(paths::components(name) =~= none);
    }
}

/// A path without slashes is one piece.
proof fn lemma_single_piece(name: Seq<u8>)
    requires
        is_one_piece(name),
    ensures
        paths::split_slash(name) == seq![name],
    decreases name.len(),
{
    if name.len() == 0 {
        assert(name =~= Seq::<u8>::empty());
    } else {
        let init = name.drop_last();
        lemma_single_piece(init);
        let done = paths::split_slash(init);
        assert(done.drop_last() =~= Seq::<Seq<u8>>::empty());
        assert(init.push(name.last()) =~= name);
        assert(paths::split_slash(name) =~= seq![name]);
    }
}

/// The last component is the name of what a path leads to, whatever the directories before it,
/// unless it is the parent's. A slash at the end of a path makes no difference.
pub proof fn names_come_last(dir: Seq<u8>, name: Seq<u8>)
    requires
        is_component(name),
    ensures
        name != seq![46u8, 46u8] ==> paths::name_of(dir + seq![47u8] + name) == Some(name),
        name == seq![46u8, 46u8] ==> paths::name_of(dir + seq![47u8] + name) is None,
        name != seq![46u8, 46u8] ==> paths::name_of(name) == Some(name),
        dir.len() > 0 ==> paths::name_of(dir + seq![47u8]) == paths::name_of(dir),
{
    components_come_one_by_one(dir, name);
    let empty = Seq::<u8>::empty();
    components_come_one_by_one(dir, empty);
    assert(dir + seq![47u8] + empty =~= dir + seq![47u8]);
    assert(name != seq![47u8]) by {
        if name == seq![47u8] {
            assert(name[0] == 47);
        }
    }
    if dir.len() == 0 {
        assert(dir + seq![47u8] + name =~= seq![47u8] + name);
        assert(paths::components(seq![47u8] + name).last() == name);
    } else {
        assert((paths::components(dir) + seq![name]).last() == name);
    }
}

/// A dot at the end of a path makes no difference to the name either, and what has no component, or
/// none that is a name, has no name: nothing at all, the root directory, and the dots that stand
/// for a directory and its parent.
pub proof fn some_paths_have_no_name(dir: Seq<u8>)
    ensures
        dir.len() > 0 ==> paths::name_of(dir + seq![47u8, 46u8]) == paths::name_of(dir),
        paths::name_of(Seq::<u8>::empty()) is None,
        paths::name_of(seq![47u8]) is None,
        paths::name_of(seq![46u8]) is None,
        paths::name_of(seq![46u8, 46u8]) is None,
{
    let empty = Seq::<u8>::empty();
    components_come_one_by_one(dir, seq![46u8]);
    components_come_one_by_one(dir, empty);
    components_come_one_by_one(dir, seq![46u8, 46u8]);
    assert(dir + seq![47u8] + seq![46u8] =~= dir + seq![47u8, 46u8]);
    assert(seq![47u8] + empty =~= seq![47u8]);
}

/// Byte strings are taken over one by one, as they are.
pub proof fn pieces_are_taken_over(v: Seq<Vec<u8>>)
    ensures
        paths::pieces_of(v).len() == v.len(),
        forall|i: int| 0 <= i < v.len() ==> #[trigger] paths::pieces_of(v)[i] == v[i]@,
{
}

/// The path that leads from the root directory down through `names`.
pub open spec fn absolute(names: Seq<Seq<u8>>) -> Seq<u8>
    decreases names.len(),
{
    if names.len() == 0 {
        seq![47u8]
    } else if names.len() == 1 {
        seq![47u8] + names[0]
    } else {
        absolute(names.drop_last()) + seq![47u8] + names.last()
    }
}

/// The components of an absolute path are the root directory and the names it leads through.
proof fn lemma_absolute(names: Seq<Seq<u8>>)
    requires
        forall|i: int| 0 <= i < names.len() ==> is_component(#[trigger] names[i]),
    ensures
        absolute(names).len() > 0,
        paths::components(absolute(names)) == seq![seq![47u8]] + names,
    decreases names.len(),
{
    let empty = Seq::<u8>::empty();
    if names.len() == 0 {
        components_come_one_by_one(empty, empty);
        assert(seq![47u8] + empty =~= seq![47u8]);
        assert(seq![seq![47u8]] + names =~= seq![seq![47u8]]);
    } else if names.len() == 1 {
        assert(is_component(names[0]));
        components_come_one_by_one(empty, names[0]);
        assert(seq![seq![47u8]] + names =~= seq![seq![47u8], names[0]]);
    } else {
        let front = names.drop_last();
        assert forall|i: int| 0 <= i < front.len() implies is_component(#[trigger] front[i]) by {
            assert(is_component(names[i]));
        }
        lemma_absolute(front);
        assert(is_component(names[names.len() - 1]));
        components_come_one_by_one(absolute(front), names.last());
        assert(seq![seq![47u8]] + names =~= (seq![seq![47u8]] + front) + seq![names.last()]);
    }
}

/// A path lies within a directory if and only if it leads through it: the names that lead to the
/// directory are the first of those that lead to the path.
pub proof fn within_means_below(path: Seq<Seq<u8>>, root: Seq<Seq<u8>>)
    requires
        forall|i: int| 0 <= i < path.len() ==> is_component(#[trigger] path[i]),
        forall|i: int| 0 <= i < root.len() ==> is_component(#[trigger] root[i]),
    ensures
        paths::is_within(absolute(path), absolute(root)) <==> (root.len() <= path.len()
            && forall|i: int| 0 <= i < root.len() ==> root[i] == path[i]),
{
    lemma_absolute(path);
    lemma_absolute(root);
    let slash = seq![seq![47u8]];
    let p = slash + path;
    let r = slash + root;
    if root.len() <= path.len() && forall|i: int| 0 <= i < root.len() ==> root[i] == path[i] {
        assert(r =~= p.take(r.len() as int));
    }
    if r.is_prefix_of(p) {
        assert forall|i: int| 0 <= i < root.len() implies root[i] == path[i] by {
            assert(r[i + 1] == p.take(r.len() as int)[i + 1]);
        }
    }
}

/// What lies next to a directory does not lie within it, however much its name begins like that of
/// the directory.
pub proof fn neighbours_are_outside(dir: Seq<Seq<u8>>, name: Seq<u8>, other: Seq<u8>)
    requires
        forall|i: int| 0 <= i < dir.len() ==> is_component(#[trigger] dir[i]),
        is_component(name),
        is_component(other),
        name != other,
    ensures
        !paths::is_within(absolute(dir.push(other)), absolute(dir.push(name))),
{
    let a = dir.push(other);
    let b = dir.push(name);
    within_means_below(a, b);
    let n = dir.len() as int;
    assert(b[n] == name && a[n] == other);
}

/// A name is joined to a directory by exactly one slash.
pub proof fn joining_adds_a_slash(dir: Seq<u8>, name: Seq<u8>)
    ensures
        dir.len() > 0 && dir.last() != 47 ==> paths::joined(dir, name) == dir + seq![47u8] + name,
        dir.len() > 0 && dir.last() == 47 ==> paths::joined(dir, name) == dir + name,
        dir.len() == 0 ==> paths::joined(dir, name) == name,
{
    assert(dir.push(47u8) =~= dir + seq![47u8]);
    if dir.len() == 0 {
        assert(dir + name =~= name);
    }
}

/// Where the last dot is.
proof fn lemma_last_dot(front: Seq<u8>, back: Seq<u8>)
    requires
        forall|i: int| 0 <= i < back.len() ==> back[i] != 46,
    ensures
        paths::last_dot(front + seq![46u8] + back) == front.len(),
        paths::last_dot(back) == -1,
    decreases back.len(),
{
    let name = front + seq![46u8] + back;
    if back.len() == 0 {
        assert(name.last() == 46);
    } else {
        let init = back.drop_last();
        lemma_last_dot(front, init);
        assert(name.drop_last() =~= front + seq![46u8] + init);
        assert(name.last() == back.last());
        assert(back.last() != 46);
    }
}

/// An extension is what follows the last dot of a name. A name without a dot has none, and neither
/// has a name whose only dot is at its start.
pub proof fn extensions_follow_the_last_dot(stem: Seq<u8>, ext: Seq<u8>)
    requires
        forall|i: int| 0 <= i < ext.len() ==> ext[i] != 46,
    ensures
        stem.len() > 0 ==> paths::extension_of_name(stem + seq![46u8] + ext) == Some(ext),
        paths::extension_of_name(seq![46u8] + ext) is None,
        paths::extension_of_name(ext) is None,
{
    lemma_last_dot(stem, ext);
    lemma_last_dot(Seq::<u8>::empty(), ext);
    let name = stem + seq![46u8] + ext;
    assert(name.skip(stem.len() as int + 1) =~= ext);
    assert(Seq::<u8>::empty() + seq![46u8] + ext =~= seq![46u8] + ext);
}

/// The extension of a path is that of its name, whatever the directories before it.
pub proof fn directories_have_no_say_in_extensions(dir: Seq<u8>, name: Seq<u8>)
    requires
        is_component(name),
        name != seq![46u8, 46u8],
    ensures
        paths::extension_of(dir + seq![47u8] + name) == paths::extension_of_name(name),
        paths::extension_of(name) == paths::extension_of_name(name),
{
    names_come_last(dir, name);
}

/// No piece of a path holds a slash.
proof fn lemma_pieces_are_pieces(p: Seq<u8>)
    ensures
        paths::split_slash(p).len() > 0,
        forall|i: int|
            0 <= i < paths::split_slash(p).len() ==> is_one_piece(
                #[trigger] paths::split_slash(p)[i],
            ),
    decreases p.len(),
{
    if p.len() > 0 {
        lemma_pieces_are_pieces(p.drop_last());
        let done = paths::split_slash(p.drop_last());
        let all = paths::split_slash(p);
        assert forall|i: int| 0 <= i < all.len() implies is_one_piece(#[trigger] all[i]) by {
            if i < all.len() - 1 {
                assert(is_one_piece(done[i]));
            } else {
                assert(is_one_piece(done[done.len() - 1]));
            }
        }
    }
}

/// The pieces that name something are pieces, and not empty.
proof fn lemma_named_are_pieces(pieces: Seq<Seq<u8>>)
    requires
        forall|i: int| 0 <= i < pieces.len() ==> is_one_piece(#[trigger] pieces[i]),
    ensures
        forall|i: int|
            0 <= i < paths::named_pieces(pieces).len() ==> is_one_piece(
                #[trigger] paths::named_pieces(pieces)[i],
            ) && paths::named_pieces(pieces)[i].len() > 0,
    decreases pieces.len(),
{
    if pieces.len() > 0 {
        let front = pieces.drop_last();
        assert forall|i: int| 0 <= i < front.len() implies is_one_piece(#[trigger] front[i]) by {
            assert(is_one_piece(pieces[i]));
        }
        lemma_named_are_pieces(front);
        let before = paths::named_pieces(front);
        let named = paths::named_pieces(pieces);
        assert(is_one_piece(pieces[pieces.len() - 1]));
        assert forall|i: int| 0 <= i < named.len() implies is_one_piece(#[trigger] named[i])
            && named[i].len() > 0 by {
            if i < before.len() {
                assert(named[i] == before[i]);
            }
        }
    }
}

/// The name of what a path leads to can be the name of something in a directory.
proof fn lemma_name_is_component(p: Seq<u8>)
    requires
        paths::name_of(p) is Some,
    ensures
        is_component(paths::name_of(p)->Some_0),
        paths::name_of(p)->Some_0 != seq![46u8, 46u8],
{
    let parts = paths::components(p);
    let named = paths::named_pieces(paths::split_slash(p));
    lemma_pieces_are_pieces(p);
    lemma_named_are_pieces(paths::split_slash(p));
    if paths::is_rooted(p) && named.len() == 0 {
        assert(parts =~= seq![seq![47u8]]);
    } else {
        assert(parts.last() == named.last());
        assert(is_one_piece(named[named.len() - 1]));
    }
}

/// A filter on extensions that names none lets every path pass. One that names some lets a file
/// pass if and only if what follows the last dot of its name is among them, byte for byte; so a
/// file without a dot in its name does not pass, nor one whose only dot comes first.
pub proof fn extension_filter(dir: Seq<u8>, stem: Seq<u8>, ext: Seq<u8>, extensions: Seq<String>)
    requires
        is_one_piece(stem),
        is_one_piece(ext),
        forall|i: int| 0 <= i < ext.len() ==> ext[i] != 46,
    ensures
        stem.len() > 0 && !(stem == seq![46u8] && ext.len() == 0)
            ==> (crate::tools::common::extension_passes(
            dir + seq![47u8] + (stem + seq![46u8] + ext),
            extensions,
        ) <==> (extensions.len() == 0 || exists|i: int|
            0 <= i < extensions.len() && vstd::utf8::encode_utf8(#[trigger] extensions[i]@)
                == ext)),
        ext.len() > 0 ==> (crate::tools::common::extension_passes(
            dir + seq![47u8] + ext,
            extensions,
        ) <==> extensions.len() == 0),
        ext.len() > 0 ==> (crate::tools::common::extension_passes(
            dir + seq![47u8] + (seq![46u8] + ext),
            extensions,
        ) <==> extensions.len() == 0),
        extensions.len() == 0 ==> crate::tools::common::extension_passes(dir, extensions),
        paths::name_of(dir) is None ==> (crate::tools::common::extension_passes(dir, extensions)
            <==> extensions.len() == 0),
        paths::name_of(dir) matches Some(name) ==> (crate::tools::common::extension_passes(
            dir,
            extensions,
        ) <==> crate::tools::common::extension_passes(seq![47u8] + name, extensions)),
{
    if let Some(name) = paths::name_of(dir) {
        lemma_name_is_component(dir);
        directories_have_no_say_in_extensions(Seq::<u8>::empty(), name);
        assert(Seq::<u8>::empty() + seq![47u8] + name =~= seq![47u8] + name);
    }
    extensions_follow_the_last_dot(stem, ext);
    let name = stem + seq![46u8] + ext;
    if stem.len() > 0 && !(stem == seq![46u8] && ext.len() == 0) {
        assert(name.len() >= 2);
        assert(is_component(name));
        if name == seq![46u8, 46u8] {
            assert(stem.len() == 1 && stem[0] == name[0]);
            assert(stem =~= seq![46u8]);
        }
        directories_have_no_say_in_extensions(dir, name);
    }
    if ext.len() > 0 {
        assert(ext[0] != 46);
        assert(is_component(ext));
        directories_have_no_say_in_extensions(dir, ext);
        let hidden = seq![46u8] + ext;
        assert(hidden[1] == ext[0]);
        assert(is_component(hidden));
        directories_have_no_say_in_extensions(dir, hidden);
    }
}

/// Two byte strings are in the order of the first byte in which they differ.
pub proof fn first_difference_decides(common: Seq<u8>, a: Seq<u8>, b: Seq<u8>)
    requires
        a.len() > 0,
        b.len() > 0,
        a[0] < b[0],
    ensures
        ordering::bytes_le(common + a, common + b),
        !ordering::bytes_le(common + b, common + a),
    decreases common.len(),
{
    if common.len() == 0 {
        assert(common + a =~= a);
        assert(common + b =~= b);
    } else {
        let rest = common.skip(1);
        first_difference_decides(rest, a, b);
        assert((common + a).skip(1) =~= rest + a);
        assert((common + b).skip(1) =~= rest + b);
    }
}

/// A byte string comes before whatever it is the beginning of.
pub proof fn beginnings_come_first(common: Seq<u8>, a: Seq<u8>)
    ensures
        ordering::bytes_le(common, common + a),
        a.len() > 0 ==> !ordering::bytes_le(common + a, common),
    decreases common.len(),
{
    if common.len() > 0 {
        let rest = common.skip(1);
        beginnings_come_first(rest, a);
        assert((common + a).skip(1) =~= rest + a);
    }
}

} // verus!
