//! Which memory a request is about, and what a listing of memories holds.

use vstd::prelude::*;
use vstd::utf8::*;

use crate::engines;
use crate::laws;
use crate::memory::{self, MemoryEntry};
use crate::ordering;
use crate::paths;

verus! {

/// A name is plain if and only if it is not empty and has no slash, no backslash, and no two dots
/// in a row.
pub proof fn plain_names_lead_nowhere_else(name: Seq<char>)
    ensures
        memory::is_plain_name(name) <==> {
            &&& name.len() > 0
            &&& forall|i: int|
                0 <= i < name.len() ==> (#[trigger] name[i]) != '/' && name[i] != '\\' && (name[i]
                    == '.' && i + 1 < name.len() ==> name[i + 1] != '.')
        },
{
    if forall|i: int|
        0 <= i < name.len() ==> (#[trigger] name[i]) != '/' && name[i] != '\\' && (name[i] == '.'
            && i + 1 < name.len() ==> name[i + 1] != '.') {
        assert(!name.contains('/'));
        assert(!name.contains('\\'));
        assert(!memory::has_double_dot(name));
    }
    if memory::is_plain_name(name) {
        assert forall|i: int| 0 <= i < name.len() implies (#[trigger] name[i]) != '/' && name[i]
            != '\\' && (name[i] == '.' && i + 1 < name.len() ==> name[i + 1] != '.') by {
            if name[i] == '/' {
                assert(name.contains('/'));
            }
            if name[i] == '\\' {
                assert(name.contains('\\'));
            }
        }
    }
}

/// A request is turned down if and only if there is no memory directory or it names something that
/// is no plain name. In the first case the directory is said to be missing, and in the second the
/// name is shown, as a fault of the request.
pub proof fn requests_are_turned_down_for_a_reason(
    dir: Seq<u8>,
    dir_exists: bool,
    name: Option<&str>,
)
    ensures
        memory::refusal(dir, dir_exists, name) is None <==> dir_exists && (name is None
            || memory::is_plain_name(name->Some_0@)),
        !dir_exists ==> memory::refusal(dir, dir_exists, name) == Some(
            crate::error::AppErrorView::NotFound(
                "memory dir does not exist: "@ + engines::lossy_text(dir),
            ),
        ),
        dir_exists && memory::refusal(dir, dir_exists, name) is Some ==> memory::refusal(
            dir,
            dir_exists,
            name,
        ) == Some(
            crate::error::AppErrorView::InvalidRequest(
                "memory name must be a plain filename, got: "@ + engines::quoted_text(
                    name->Some_0@,
                ),
            ),
        ),
{
}

/// A request is about the file that it names, in the memory directory, and one without a name about
/// the index there.
pub proof fn requests_are_about_files_of_the_directory(dir: Seq<u8>, name: Option<&str>)
    requires
        dir.len() > 0,
        dir.last() != 47,
    ensures
        name is Some ==> paths::joined(dir, encode_utf8(memory::target_name(name))) == dir + seq![
            47u8,
        ] + encode_utf8(name->Some_0@),
        name is None ==> paths::joined(dir, encode_utf8(memory::target_name(name))) == dir + seq![
            47u8,
        ] + encode_utf8(seq!['M', 'E', 'M', 'O', 'R', 'Y', '.', 'm', 'd']),
{
    reveal_strlit("MEMORY.md");
    assert("MEMORY.md"@ =~= seq!['M', 'E', 'M', 'O', 'R', 'Y', '.', 'm', 'd']);
    laws::paths::joining_adds_a_slash(dir, encode_utf8(memory::target_name(name)));
}

/// Whether `name` ends in `.md` and has something before it.
pub open spec fn ends_in_md(name: Seq<u8>) -> bool {
    name.len() > 3 && name[name.len() - 3] == 46 && name[name.len() - 2] == 109 && name[name.len()
        - 1] == 100
}

/// The last dot is a dot.
proof fn lemma_last_dot_is_one(name: Seq<u8>)
    ensures
        paths::last_dot(name) < name.len(),
        paths::last_dot(name) >= 0 ==> name[paths::last_dot(name)] == 46,
    decreases name.len(),
{
    if name.len() > 0 && name.last() != 46 {
        lemma_last_dot_is_one(name.drop_last());
    }
}

/// The extension of a memory.
proof fn lemma_md(name: Seq<u8>)
    ensures
        paths::extension_of_name(name) == Some(seq![109u8, 100u8]) <==> ends_in_md(name),
{
    let md = seq![109u8, 100u8];
    lemma_last_dot_is_one(name);
    if paths::extension_of_name(name) == Some(md) {
        let d = paths::last_dot(name);
        let ext = name.skip(d + 1);
        assert(ext.len() == 2);
        assert(ext[0] == name[d + 1] && ext[1] == name[d + 2]);
    }
    if ends_in_md(name) {
        let stem = name.take(name.len() - 3);
        laws::paths::extensions_follow_the_last_dot(stem, md);
        assert(stem + seq![46u8] + md =~= name);
    }
}

/// The memories among the entries of a directory are the files whose name ends in `.md`, in the
/// order given; what is no file is none, whatever its name.
pub proof fn memories_are_md_files(entries: Seq<MemoryEntry>)
    ensures
        memory::md_names(entries) == entries.filter(
            |entry: MemoryEntry| entry.is_file && ends_in_md(entry.name@),
        ).map_values(|entry: MemoryEntry| entry.name@),
    decreases entries.len(),
{
    reveal(Seq::filter);
    let is_memory = |entry: MemoryEntry| entry.is_file && ends_in_md(entry.name@);
    let name = |entry: MemoryEntry| entry.name@;
    if entries.len() > 0 {
        let rest = entries.drop_last();
        memories_are_md_files(rest);
        lemma_md(entries.last().name@);
        if is_memory(entries.last()) {
            assert(entries.filter(is_memory).map_values(name) =~= rest.filter(is_memory).map_values(
                name,
            ).push(entries.last().name@));
        }
    }
    assert(memory::md_names(entries) =~= entries.filter(is_memory).map_values(name));
}

/// A listing holds the memories of a directory, each as often as it is there, in the order of the
/// bytes of their names, one per line behind a hyphen and a blank; names that are no text have no
/// line. Where there are no memories it says so.
pub proof fn listings_hold_the_memories(entries: Seq<MemoryEntry>, shown: Seq<char>) -> (sorted: Seq<
    Seq<u8>,
>)
    requires
        memory::is_listing(entries, shown),
    ensures
        sorted.to_multiset() == entries.filter(
            |entry: MemoryEntry| entry.is_file && ends_in_md(entry.name@),
        ).map_values(|entry: MemoryEntry| entry.name@).to_multiset(),
        forall|i: int, j: int|
            0 <= i <= j < sorted.len() ==> ordering::bytes_le(
                #[trigger] sorted[i],
                #[trigger] sorted[j],
            ),
        shown == "# Memory dir contents\n\n"@ + (if sorted.len() == 0 {
            "(no .md files found; configure MEMORY.md or add memory files)\n"@
        } else {
            sorted.map_values(
                |name: Seq<u8>|
                    if valid_utf8(name) {
                        seq!['-', ' '] + decode_utf8(name) + seq!['\n']
                    } else {
                        Seq::<char>::empty()
                    },
            ).flatten()
                + "\nUse `memories(name=\"...\")` to load a specific memory, or create a `MEMORY.md` index at the top level.\n"@
        }),
{
    reveal_strlit("- ");
    assert("- "@ =~= seq!['-', ' ']);
    let sorted = choose|sorted: Seq<Seq<u8>>| #[trigger]
        ordering::is_sorted_form(memory::md_names(entries), sorted) && shown == memory::listing(
            sorted,
        );
    memories_are_md_files(entries);
    let line = |name: Seq<u8>|
        if valid_utf8(name) {
            seq!['-', ' '] + decode_utf8(name) + seq!['\n']
        } else {
            Seq::<char>::empty()
        };
    let lines = sorted.map_values(|name: Seq<u8>| memory::name_line(name));
    laws::text::joining_is_flattening(lines);
    assert(lines =~= sorted.map_values(line)) by {
        assert forall|i: int| 0 <= i < lines.len() implies lines[i] == sorted.map_values(
            line,
        )[i] by {
            let name = sorted[i];
            assert(lines[i] == memory::name_line(name));
            if valid_utf8(name) {
                assert(memory::name_line(name) =~= line(name));
            }
        }
    }
    sorted
}

} // verus!
