//! Persisted memories: plain text files in a directory of their own.
//!
//! The caller looks at the directory and reads the files. What to look at, and what to answer, is
//! decided here.

use vstd::prelude::*;
use vstd::string::*;

use crate::engines::{self, quoted, utf8_lossy, utf8_text};
use crate::error::AppError;
use crate::ordering::{self, sort_bytes};
use crate::paths;
use crate::text;
use crate::tools::response::ToolResponse;

verus! {

/// Whether two dots stand next to each other in `name`.
pub open spec fn has_double_dot(name: Seq<char>) -> bool {
    exists|i: int| 0 <= i < name.len() - 1 && #[trigger] name[i] == '.' && name[i + 1] == '.'
}

/// Whether `name` is a plain file name: a single, non-empty component that leads nowhere else.
pub open spec fn is_plain_name(name: Seq<char>) -> bool {
    name.len() > 0 && !name.contains('/') && !name.contains('\\') && !has_double_dot(name)
}

/// Whether `name` is a plain file name.
pub fn is_plain(name: &str) -> (plain: bool)
    ensures
        plain == is_plain_name(name@),
{
    if name.is_empty() {
        return false;
    }
    let mut plain = true;
    let mut after_dot = false;
    for c in it: name.chars()
        invariant
            it.seq() == name@,
            plain == (forall|i: int|
                0 <= i < it.index() ==> (#[trigger] name@[i]) != '/' && name@[i] != '\\' && (i > 0
                    ==> !(name@[i] == '.' && name@[i - 1] == '.'))),
            after_dot == (it.index() > 0 && name@[it.index() - 1] == '.'),
    {
        if c == '/' || c == '\\' || (c == '.' && after_dot) {
            plain = false;
        }
        after_dot = c == '.';
    }
    proof {
        if plain {
            if has_double_dot(name@) {
                let i = choose|i: int|
                    0 <= i < name@.len() - 1 && #[trigger] name@[i] == '.' && name@[i + 1] == '.';
                assert(name@[i + 1] == '.');
            }
        } else {
            let i = choose|i: int|
                0 <= i < name@.len() && !((#[trigger] name@[i]) != '/' && name@[i] != '\\' && (i > 0
                    ==> !(name@[i] == '.' && name@[i - 1] == '.')));
            if name@[i] != '/' && name@[i] != '\\' {
                assert(name@[i - 1] == '.' && name@[i - 1 + 1] == '.');
            }
        }
    }
    plain
}

/// The file that a request is about: the one it names, or the index.
pub open spec fn target_name(name: Option<&str>) -> Seq<char> {
    match name {
        Some(n) => n@,
        None => "MEMORY.md"@,
    }
}

/// Why a request is turned down before any file is looked at, if it is.
pub open spec fn refusal(
    dir: Seq<u8>,
    dir_exists: bool,
    name: Option<&str>,
) -> Option<crate::error::AppErrorView> {
    if !dir_exists {
        Some(
            crate::error::AppErrorView::NotFound(
                "memory dir does not exist: "@ + engines::lossy_text(dir),
            ),
        )
    } else {
        match name {
            Some(n) if !is_plain_name(n@) => Some(
                crate::error::AppErrorView::InvalidRequest(
                    "memory name must be a plain filename, got: "@ + engines::quoted_text(n@),
                ),
            ),
            _ => None,
        }
    }
}

/// The path of the file that a request is about, unless the request is turned down: there must be
/// a directory, and a name must be a plain file name.
pub fn memory_target(dir: &[u8], dir_exists: bool, name: Option<&str>) -> (target: Result<
    Vec<u8>,
    AppError,
>)
    ensures
        match refusal(dir@, dir_exists, name) {
            Some(e) => target matches Err(err) && err@ == e,
            None => target matches Ok(path) && path@ == paths::joined(
                dir@,
                vstd::utf8::encode_utf8(target_name(name)),
            ),
        },
{
    if !dir_exists {
        let mut msg = "memory dir does not exist: ".to_owned();
        msg.append(utf8_lossy(dir).as_str());
        return Err(AppError::NotFound(msg));
    }
    match name {
        Some(n) => {
            if !is_plain(n) {
                let mut msg = "memory name must be a plain filename, got: ".to_owned();
                msg.append(quoted(n).as_str());
                return Err(AppError::InvalidRequest(msg));
            }
            Ok(paths::join(dir, n.as_bytes()))
        },
        None => Ok(paths::join(dir, "MEMORY.md".as_bytes())),
    }
}

/// What is in the memory directory under a name: a file, or something else.
#[derive(Debug)]
pub struct MemoryEntry {
    pub name: Vec<u8>,
    pub is_file: bool,
}

/// The names of the files among `entries` that end in `.md`, in the order given.
pub open spec fn md_names(entries: Seq<MemoryEntry>) -> Seq<Seq<u8>>
    decreases entries.len(),
{
    if entries.len() == 0 {
        Seq::empty()
    } else {
        let before = md_names(entries.drop_last());
        let last = entries.last();
        if last.is_file && paths::extension_of_name(last.name@) == Some(seq![109u8, 100u8]) {
            before.push(last.name@)
        } else {
            before
        }
    }
}

/// The line that lists `name`. A name that is no text has none.
pub open spec fn name_line(name: Seq<u8>) -> Seq<char> {
    if vstd::utf8::valid_utf8(name) {
        ("- "@ + vstd::utf8::decode_utf8(name)).push('\n')
    } else {
        Seq::empty()
    }
}

/// The listing of the names in `sorted`.
pub open spec fn listing(sorted: Seq<Seq<u8>>) -> Seq<char> {
    "# Memory dir contents\n\n"@ + if sorted.len() == 0 {
        "(no .md files found; configure MEMORY.md or add memory files)\n"@
    } else {
        text::concat(sorted.map_values(|name: Seq<u8>| name_line(name)))
            + "\nUse `memories(name=\"...\")` to load a specific memory, or create a `MEMORY.md` index at the top level.\n"@
    }
}

/// Whether `shown` is the listing of the memories among `entries`, sorted by name.
pub open spec fn is_listing(entries: Seq<MemoryEntry>, shown: Seq<char>) -> bool {
    exists|sorted: Seq<Seq<u8>>| #[trigger]
        ordering::is_sorted_form(md_names(entries), sorted) && shown == listing(sorted)
}

/// The names of the files among `entries` that end in `.md`.
fn keep_md(entries: &Vec<MemoryEntry>) -> (kept: Vec<Vec<u8>>)
    ensures
        paths::pieces_of(kept@) == md_names(entries@),
{
    let mut kept: Vec<Vec<u8>> = Vec::new();
    let md: [u8; 2] = [109, 100];
    let mut i: usize = 0;
    proof {
        assert(entries@.take(0) =~= Seq::<MemoryEntry>::empty());
        assert(paths::pieces_of(kept@) =~= Seq::<Seq<u8>>::empty());
    }
    while i < entries.len()
        invariant
            i <= entries@.len(),
            md@ == seq![109u8, 100u8],
            paths::pieces_of(kept@) == md_names(entries@.take(i as int)),
        decreases entries@.len() - i,
    {
        let ghost before = kept@;
        let entry = &entries[i];
        assert(entries@.take(i + 1).drop_last() =~= entries@.take(i as int));
        assert(entries@.take(i + 1).last() == *entry);
        if entry.is_file {
            if let Some(ext) = paths::name_extension(entry.name.as_slice()) {
                if paths::same_bytes(ext.as_slice(), md.as_slice()) {
                    kept.push(paths::copy_bytes(entry.name.as_slice()));
                    assert(paths::pieces_of(kept@) =~= paths::pieces_of(before).push(entry.name@));
                }
            }
        }
        i = i + 1;
    }
    assert(entries@.take(entries@.len() as int) =~= entries@);
    kept
}

/// The listing of the memories among `entries`, which is what is in the directory.
pub fn list_memories(entries: &Vec<MemoryEntry>) -> (shown: String)
    ensures
        is_listing(entries@, shown@),
{
    let sorted = sort_bytes(keep_md(entries));
    let ghost names = paths::pieces_of(sorted@);
    let mut shown = "# Memory dir contents\n\n".to_owned();
    assert(ordering::is_sorted_form(md_names(entries@), names));
    if sorted.len() == 0 {
        shown.append("(no .md files found; configure MEMORY.md or add memory files)\n");
        assert(shown@ =~= listing(names));
        return shown;
    }
    let ghost head = shown@;
    let ghost lines = names.map_values(|name: Seq<u8>| name_line(name));
    let mut i: usize = 0;
    assert(lines.take(0) =~= Seq::<Seq<char>>::empty());
    assert(head + Seq::<char>::empty() =~= head);
    while i < sorted.len()
        invariant
            i <= sorted@.len(),
            names == paths::pieces_of(sorted@),
            lines == names.map_values(|name: Seq<u8>| name_line(name)),
            shown@ == head + text::concat(lines.take(i as int)),
        decreases sorted@.len() - i,
    {
        let ghost before = shown@;
        assert(lines.take(i + 1).drop_last() =~= lines.take(i as int));
        assert(lines.take(i + 1).last() == name_line(sorted@[i as int]@));
        if let Some(name) = utf8_text(sorted[i].as_slice()) {
            shown.append("- ");
            shown.append(name.as_str());
            text::push_newline(&mut shown);
        }
        assert(shown@ =~= before + name_line(sorted@[i as int]@));
        assert(shown@ =~= head + text::concat(lines.take(i + 1)));
        i = i + 1;
    }
    assert(lines.take(lines.len() as int) =~= lines);
    shown.append(
        "\nUse `memories(name=\"...\")` to load a specific memory, or create a `MEMORY.md` index at the top level.\n",
    );
    assert(shown@ =~= listing(names));
    shown
}

/// Loads a memory, or the index, or a listing where there is no index.
///
/// `file` is what came of reading the file that [`memory_target`] gives, or `None` if there is no
/// such file. `entries` is what came of reading the directory; it matters only where no name is
/// given and there is no index.
pub fn load_memory(
    dir: &[u8],
    dir_exists: bool,
    name: Option<&str>,
    file: Option<Result<String, String>>,
    entries: &Result<Vec<MemoryEntry>, String>,
) -> (outcome: Result<ToolResponse, AppError>)
    ensures
        match (refusal(dir@, dir_exists, name), file) {
            (Some(e), _) => outcome matches Err(err) && err@ == e,
            (None, Some(Ok(content))) => outcome matches Ok(r) && r@
                == crate::tools::response::plain_text(content@),
            (None, Some(Err(e))) => outcome matches Err(err) && err@
                == crate::error::AppErrorView::Io(e@),
            (None, None) => match (name, *entries) {
                (Some(n), _) => outcome matches Err(err) && err@
                    == crate::error::AppErrorView::NotFound("memory not found: "@ + n@),
                (None, Err(e)) => outcome matches Err(err) && err@
                    == crate::error::AppErrorView::Io(e@),
                (None, Ok(names)) => outcome matches Ok(r) && r@
                    == crate::tools::response::plain_text(r.content@) && is_listing(names@, r.content@),
            },
        },
{
    match memory_target(dir, dir_exists, name) {
        Ok(_) => {},
        Err(e) => {
            return Err(e);
        },
    }
    match file {
        Some(Ok(content)) => Ok(ToolResponse::text(content)),
        Some(Err(e)) => Err(AppError::Io(e)),
        None => {
            match name {
                Some(n) => {
                    let mut msg = "memory not found: ".to_owned();
                    msg.append(n);
                    Err(AppError::NotFound(msg))
                },
                None => match entries {
                    Err(e) => Err(AppError::Io(e.clone())),
                    Ok(names) => Ok(ToolResponse::text(list_memories(names))),
                },
            }
        },
    }
}

/// A text without a slash is encoded without one.
proof fn lemma_no_slash(name: Seq<char>)
    requires
        !name.contains('/'),
    ensures
        forall|i: int|
            0 <= i < vstd::utf8::encode_utf8(name).len() ==> vstd::utf8::encode_utf8(name)[i]
                != paths::SLASH,
    decreases name.len(),
{
    if name.len() > 0 {
        let c = name[0];
        let rest = name.drop_first();
        assert(!rest.contains('/')) by {
            if rest.contains('/') {
                let i = choose|i: int| 0 <= i < rest.len() && rest[i] == '/';
                assert(name[i + 1] == '/');
            }
        }
        lemma_no_slash(rest);
        assert(name.contains(c));
        lemma_scalar_without_slash(c);
        let head = vstd::utf8::encode_scalar(c as u32);
        let tail = vstd::utf8::encode_utf8(rest);
        let all = vstd::utf8::encode_utf8(name);
        assert(all == head + tail);
        assert forall|i: int| 0 <= i < all.len() implies all[i] != paths::SLASH by {
            if i < head.len() {
                assert(all[i] == head[i]);
            } else {
                assert(all[i] == tail[i - head.len()]);
            }
        }
    }
}

/// A character other than a slash is encoded without one.
proof fn lemma_scalar_without_slash(c: char)
    requires
        c != '/',
    ensures
        forall|i: int|
            0 <= i < vstd::utf8::encode_scalar(c as u32).len()
                ==> #[trigger] vstd::utf8::encode_scalar(c as u32)[i] != paths::SLASH,
{
    let u = c as u32;
    assert(0x80u8 | ((u & 0x3F) as u8) != 47u8) by (bit_vector);
    assert(0x80u8 | (((u >> 6) & 0x3F) as u8) != 47u8) by (bit_vector);
    assert(0x80u8 | (((u >> 12) & 0x3F) as u8) != 47u8) by (bit_vector);
    assert(0xC0u8 | (((u >> 6) & 0x1F) as u8) != 47u8) by (bit_vector);
    assert(0xE0u8 | (((u >> 12) & 0x0F) as u8) != 47u8) by (bit_vector);
    assert(0xF0u8 | (((u >> 18) & 0x07) as u8) != 47u8) by (bit_vector);
    assert(u <= 0x7f && u != 47 ==> (u & 0x7F) as u8 != 47u8) by (bit_vector);
}

/// Only two dots spell the name of the parent.
proof fn lemma_not_parent(name: Seq<char>)
    requires
        !has_double_dot(name),
    ensures
        vstd::utf8::encode_utf8(name) != seq![paths::DOT, paths::DOT],
{
    let dots = seq!['.', '.'];
    vstd::utf8::is_ascii_chars_encode_utf8(dots);
    assert(vstd::utf8::encode_utf8(dots) =~= seq![paths::DOT, paths::DOT]) by {
        assert(dots[0] as u8 == paths::DOT && dots[1] as u8 == paths::DOT);
    }
    if vstd::utf8::encode_utf8(name) == seq![paths::DOT, paths::DOT] {
        vstd::utf8::encode_utf8_decode_utf8(name);
        vstd::utf8::encode_utf8_decode_utf8(dots);
        assert(name == dots);
        assert(name[0] == '.' && name[1] == '.');
    }
}

/// A directory among the entries is no memory, whatever its name.
pub proof fn only_files_are_listed(entries: Seq<MemoryEntry>)
    requires
        forall|i: int| 0 <= i < entries.len() ==> !(#[trigger] entries[i]).is_file,
    ensures
        md_names(entries).len() == 0,
    decreases entries.len(),
{
    if entries.len() > 0 {
        let rest = entries.drop_last();
        assert forall|i: int| 0 <= i < rest.len() implies !(#[trigger] rest[i]).is_file by {
            assert(!entries[i].is_file);
        }
        only_files_are_listed(rest);
        assert(!entries[entries.len() - 1].is_file);
    }
}

/// No request reaches outside the memory directory: whatever the name, the file that is looked at
/// lies in it.
pub proof fn targets_stay_inside(dir: Seq<u8>, name: Option<&str>)
    requires
        dir.len() > 0,
        refusal(dir, true, name) is None,
    ensures
        paths::is_within(
            paths::joined(dir, vstd::utf8::encode_utf8(target_name(name))),
            dir,
        ),
{
    let target = target_name(name);
    assert(!target.contains('/')) by {
        reveal_strlit("MEMORY.md");
    }
    lemma_no_slash(target);
    assert(!has_double_dot(target)) by {
        reveal_strlit("MEMORY.md");
    }
    lemma_not_parent(target);
    paths::joined_is_within(dir, vstd::utf8::encode_utf8(target));
}

/// A listing is settled by what is in the directory.
pub proof fn listing_is_unique(entries: Seq<MemoryEntry>, a: Seq<char>, b: Seq<char>)
    requires
        is_listing(entries, a),
        is_listing(entries, b),
    ensures
        a == b,
{
    let x = choose|sorted: Seq<Seq<u8>>| #[trigger]
        ordering::is_sorted_form(md_names(entries), sorted) && a == listing(sorted);
    let y = choose|sorted: Seq<Seq<u8>>| #[trigger]
        ordering::is_sorted_form(md_names(entries), sorted) && b == listing(sorted);
    ordering::sorted_form_is_unique(md_names(entries), x, y);
}

} // verus!
