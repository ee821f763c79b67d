//! What the walking tools share: the entries of a walk, the filter on extensions, the record of
//! errors, and the assembly of capped output.

use ignore::WalkBuilder;
use std::path::PathBuf;
use vstd::prelude::*;
use vstd::string::*;

use crate::engines::{self, utf8_lossy};
use crate::paths;
use crate::text::{self, append_capped};
use crate::tools::options::WalkerConfig;

verus! {

/// What a directory walk reports: an entry that could not be read, with the text of the error,
/// or an entry.
#[derive(Debug)]
pub enum WalkEntry {
    Failed(String),
    Found { path: Vec<u8>, is_file: bool },
}

/// How a walk goes on after an entry was looked at.
#[derive(Debug, Clone, Copy, PartialEq, Eq, Structural)]
pub enum EntryStep {
    /// End the walk: there are results enough.
    Quit,
    /// The entry is of no interest.
    Skip,
    /// The entry could not be read or resolved: record that.
    Failed,
    /// The entry is a file to be searched.
    Search,
}

/// The tally of errors met on a walk, with the first message of each kind.
#[derive(Debug)]
pub struct ErrorState {
    pub entry_errors: usize,
    pub search_errors: usize,
    pub first_entry_err: Option<String>,
    pub first_search_err: Option<String>,
}

/// An [`ErrorState`] with its messages as sequences of characters.
pub struct ErrorView {
    pub entry_errors: usize,
    pub search_errors: usize,
    pub first_entry_err: Option<Seq<char>>,
    pub first_search_err: Option<Seq<char>>,
}

impl View for ErrorState {
    type V = ErrorView;

    open spec fn view(&self) -> ErrorView {
        ErrorView {
            entry_errors: self.entry_errors,
            search_errors: self.search_errors,
            first_entry_err: crate::tools::response::text_of(self.first_entry_err),
            first_search_err: crate::tools::response::text_of(self.first_search_err),
        }
    }
}

/// What is on record once `msg` was offered: the first message stays.
pub open spec fn first_kept(slot: Option<Seq<char>>, msg: Seq<char>) -> Option<Seq<char>> {
    if slot is None {
        Some(msg)
    } else {
        slot
    }
}

impl ErrorView {
    /// No errors.
    pub open spec fn empty() -> ErrorView {
        ErrorView {
            entry_errors: 0,
            search_errors: 0,
            first_entry_err: None,
            first_search_err: None,
        }
    }

    /// One more entry that could not be read.
    pub open spec fn entry_error(self, msg: Seq<char>) -> ErrorView {
        ErrorView {
            entry_errors: self.entry_errors.wrapping_add(1),
            first_entry_err: first_kept(self.first_entry_err, msg),
            ..self
        }
    }

    /// One more file that could not be searched.
    pub open spec fn search_error(self, path: Seq<u8>, msg: Seq<char>) -> ErrorView {
        ErrorView {
            search_errors: self.search_errors.wrapping_add(1),
            first_search_err: first_kept(
                self.first_search_err,
                engines::lossy_text(path) + ": "@ + msg,
            ),
            ..self
        }
    }

    /// The message to show: the first one about an entry, else the first one about a search.
    pub open spec fn first(self) -> Option<Seq<char>> {
        if self.first_entry_err is Some {
            self.first_entry_err
        } else {
            self.first_search_err
        }
    }
}

/// Records `msg` in `slot`, unless a message is there already.
fn record_first(slot: &mut Option<String>, msg: String)
    ensures
        crate::tools::response::text_of(*final(slot)) == first_kept(
            crate::tools::response::text_of(*old(slot)),
            msg@,
        ),
{
    if slot.is_none() {
        *slot = Some(msg);
    }
}

impl ErrorState {
    /// A clean record.
    pub fn new() -> (state: Self)
        ensures
            state@ == ErrorView::empty(),
    {
        ErrorState {
            entry_errors: 0,
            search_errors: 0,
            first_entry_err: None,
            first_search_err: None,
        }
    }

    /// Records an entry that could not be read.
    pub fn record_entry_error(&mut self, err: &str)
        ensures
            final(self)@ == old(self)@.entry_error(err@),
    {
        self.entry_errors = self.entry_errors.wrapping_add(1);
        record_first(&mut self.first_entry_err, err.to_owned());
    }

    /// Records an entry that could not be read, or whose path could not be resolved.
    pub fn record_failure(&mut self, entry: &WalkEntry, resolved: &Result<Vec<u8>, String>)
        ensures
            final(self)@ == if entry is Failed || resolved is Err {
                old(self)@.entry_error(entry_failure(*entry, *resolved))
            } else {
                old(self)@
            },
    {
        match entry {
            WalkEntry::Failed(msg) => {
                self.record_entry_error(msg.as_str());
            },
            WalkEntry::Found { path, is_file: _ } => {
                if let Err(e) = resolved {
                    let mut msg = utf8_lossy(path.as_slice());
                    msg.append(": ");
                    msg.append(e.as_str());
                    self.record_entry_error(msg.as_str());
                }
            },
        }
    }

    /// Records a file that could not be searched.
    pub fn record_search_error(&mut self, path: &[u8], err: &str)
        ensures
            final(self)@ == old(self)@.search_error(path@, err@),
    {
        self.search_errors = self.search_errors.wrapping_add(1);
        let mut msg = utf8_lossy(path);
        msg.append(": ");
        msg.append(err);
        record_first(&mut self.first_search_err, msg);
    }

    /// The two counts and the message to show.
    pub fn into_metadata(self) -> (meta: (usize, usize, Option<String>))
        ensures
            meta.0 == self.entry_errors,
            meta.1 == self.search_errors,
            crate::tools::response::text_of(meta.2) == self@.first(),
    {
        let first = match self.first_entry_err {
            Some(msg) => Some(msg),
            None => self.first_search_err,
        };
        (self.entry_errors, self.search_errors, first)
    }
}

/// Whether the extension filter lets `path` pass: it does if it names no extension at all, or
/// that of `path`.
pub open spec fn extension_passes(path: Seq<u8>, extensions: Seq<String>) -> bool {
    extensions.len() == 0 || (paths::extension_of(path) matches Some(ext) && exists|i: int|
        0 <= i < extensions.len() && vstd::utf8::encode_utf8(#[trigger] extensions[i]@) == ext)
}

/// Whether the extension filter lets `path` pass.
pub fn extension_matches(path: &[u8], extensions: &Vec<String>) -> (passes: bool)
    ensures
        passes == extension_passes(path@, extensions@),
{
    if extensions.len() == 0 {
        return true;
    }
    match paths::extension(path) {
        None => false,
        Some(ext) => {
            let mut i: usize = 0;
            while i < extensions.len()
                invariant
                    i <= extensions@.len(),
                    extensions@.len() > 0,
                    paths::extension_of(path@) == Some(ext@),
                    forall|k: int|
                        0 <= k < i ==> vstd::utf8::encode_utf8(#[trigger] extensions@[k]@) != ext@,
                decreases extensions@.len() - i,
            {
                let wanted = extensions[i].as_str().as_bytes();
                if paths::same_bytes(wanted, ext.as_slice()) {
                    assert(vstd::utf8::encode_utf8(extensions@[i as int]@) == ext@);
                    return true;
                }
                i = i + 1;
            }
            false
        },
    }
}

/// Whether a path may be touched, where `resolved` is what came of resolving it: it must lie
/// within `root` once symlinks are followed.
pub open spec fn is_in_scope(root: Seq<u8>, resolved: Result<Vec<u8>, String>) -> bool {
    resolved matches Ok(path) && paths::is_within(path@, root)
}

/// Whether a path may be touched, where `resolved` is what came of resolving it.
pub fn in_scope(root: &[u8], resolved: &Result<Vec<u8>, String>) -> (inside: bool)
    ensures
        inside == is_in_scope(root@, *resolved),
{
    match resolved {
        Ok(path) => paths::within(path.as_slice(), root),
        Err(_) => false,
    }
}

/// The message about an entry that could not be read or resolved.
pub open spec fn entry_failure(entry: WalkEntry, resolved: Result<Vec<u8>, String>) -> Seq<char> {
    match entry {
        WalkEntry::Failed(msg) => msg@,
        WalkEntry::Found { path, .. } => engines::lossy_text(path@) + ": "@ + resolved->Err_0@,
    }
}

/// What becomes of `entry` on a walk that has `count` results out of at most `max_results`, and
/// `resolved` being what came of resolving its path. A file that resolves to a place outside
/// `root` is passed over.
pub open spec fn entry_step(
    count: usize,
    max_results: usize,
    entry: WalkEntry,
    extensions: Seq<String>,
    root: Seq<u8>,
    resolved: Result<Vec<u8>, String>,
) -> EntryStep {
    if count >= max_results {
        EntryStep::Quit
    } else {
        match entry {
            WalkEntry::Failed(_) => EntryStep::Failed,
            WalkEntry::Found { path, is_file } => if !is_file || !extension_passes(
                path@,
                extensions,
            ) {
                EntryStep::Skip
            } else if resolved is Err {
                EntryStep::Failed
            } else if is_in_scope(root, resolved) {
                EntryStep::Search
            } else {
                EntryStep::Skip
            },
        }
    }
}

/// Decides what becomes of `entry` on a walk that has `count` results out of at most
/// `max_results`. `resolved` is what came of resolving the path of the entry; it matters for
/// files only.
pub fn judge_entry(
    count: usize,
    max_results: usize,
    entry: &WalkEntry,
    extensions: &Vec<String>,
    root: &[u8],
    resolved: &Result<Vec<u8>, String>,
) -> (step: EntryStep)
    ensures
        step == entry_step(count, max_results, *entry, extensions@, root@, *resolved),
        step is Search ==> (resolved matches Ok(p) && paths::is_within(p@, root@)),
{
    if count >= max_results {
        return EntryStep::Quit;
    }
    match entry {
        WalkEntry::Failed(_) => EntryStep::Failed,
        WalkEntry::Found { path, is_file } => {
            if !*is_file || !extension_matches(path.as_slice(), extensions) {
                EntryStep::Skip
            } else if resolved.is_err() {
                EntryStep::Failed
            } else if in_scope(root, resolved) {
                EntryStep::Search
            } else {
                EntryStep::Skip
            }
        },
    }
}

/// Whether a walk with `count` results goes on.
pub fn wants_more(count: usize, max_results: usize) -> (more: bool)
    ensures
        more == (count < max_results),
{
    count < max_results
}

/// The walk that `opts` describe over `directory`.
pub fn build_parallel_walker<C: WalkerConfig>(directory: &PathBuf, opts: &C) -> (walk: WalkBuilder)
    ensures
        walk == engines::configured_walk(
            *directory,
            !opts.wants_hidden(),
            opts.wants_gitignore(),
            opts.wants_gitignore(),
            opts.wants_gitignore(),
            opts.wants_symlinks(),
        ),
{
    let git = opts.respect_gitignore();
    engines::new_walk(directory, !opts.include_hidden(), git, git, git, opts.follow_symlinks())
}

/// Joins `chunks` under a cap of `max_bytes` bytes. Tells also whether the cap was hit: then the
/// text is cut on a character boundary, a trailing newline is ensured, and the rest is dropped.
pub fn drain_capped(chunks: &Vec<String>, max_bytes: usize) -> (drained: (String, bool))
    ensures
        drained.0@ == text::capped(text::concat(text::texts_of(chunks@)), max_bytes as int),
        drained.1 == (text::byte_len(text::concat(text::texts_of(chunks@))) > max_bytes),
{
    let mut output = String::new();
    let ghost all = text::texts_of(chunks@);
    let mut i: usize = 0;
    assert(all.take(0) =~= Seq::<Seq<char>>::empty());
    assert(text::byte_len(Seq::<char>::empty()) == 0);
    while i < chunks.len()
        invariant
            i <= chunks@.len(),
            all == text::texts_of(chunks@),
            output@ == text::concat(all.take(i as int)),
            text::byte_len(output@) <= max_bytes,
        decreases chunks@.len() - i,
    {
        let ghost so_far = output@;
        let ghost chunk = all[i as int];
        assert(all.take(i + 1).drop_last() =~= all.take(i as int));
        proof {
            text::lemma_byte_len_concat(so_far, chunk);
        }
        if append_capped(&mut output, chunks[i].as_str(), max_bytes) {
            proof {
                let rest = text::concat(all.skip(i + 1));
                assert(all =~= all.take(i + 1) + all.skip(i + 1));
                text::lemma_concat_join(all.take(i + 1), all.skip(i + 1));
                text::lemma_fitting_prefix_concat(so_far, chunk, max_bytes as int);
                text::lemma_fitting_prefix_cut(so_far + chunk, rest, max_bytes as int);
                text::lemma_byte_len_concat(so_far + chunk, rest);
            }
            return (output, true);
        }
        i = i + 1;
    }
    assert(all.take(all.len() as int) =~= all);
    (output, false)
}

/// However many walkers share a counter, no more than `max_results` results come out of them: a
/// result is put out only where the counter held less than that before it was raised, and no two
/// results find the same value in it.
pub proof fn shared_counter_caps(prevs: Seq<usize>, max_results: usize)
    requires
        prevs.no_duplicates(),
        forall|i: int| 0 <= i < prevs.len() ==> (#[trigger] prevs[i]) < max_results,
    ensures
        prevs.len() <= max_results,
{
    let values = prevs.map_values(|p: usize| p as int);
    assert(values.no_duplicates());
    values.unique_seq_to_set();
    let all = vstd::set_lib::set_int_range(0, max_results as int);
    vstd::set_lib::lemma_int_range(0, max_results as int);
    assert forall|v: int| values.to_set().contains(v) implies all.contains(v) by {
        let i = choose|i: int| 0 <= i < values.len() && values[i] == v;
        assert(prevs[i] < max_results);
    }
    vstd::set_lib::lemma_len_subset(values.to_set(), all);
}

} // verus!
