//! The part of the filesystem that the tools may touch.
//!
//! Paths are resolved by the caller: made absolute, with symlinks followed and `..` taken out.
//! Whether the result may be touched is decided here.

use vstd::prelude::*;
use vstd::string::*;

use crate::engines::{self, utf8_lossy};
use crate::error::AppError;
use crate::paths::{self, copy_bytes, within};

verus! {

/// A filesystem scope: every path that the tools touch is resolved and required to lie under
/// its root.
#[derive(Debug)]
pub struct Scope {
    root: Vec<u8>,
}

/// A path that was resolved, and whether it is a directory.
#[derive(Debug)]
pub struct Resolved {
    pub path: Vec<u8>,
    pub is_dir: bool,
}

impl View for Scope {
    type V = Seq<u8>;

    /// The root.
    closed spec fn view(&self) -> Seq<u8> {
        self.root@
    }
}

impl Clone for Scope {
    fn clone(&self) -> (scope: Self)
        ensures
            scope@ == self@,
    {
        Scope { root: copy_bytes(self.root.as_slice()) }
    }
}

impl Scope {
    /// Builds a scope. `resolved` is what came of resolving `root`: the root must exist and be a
    /// directory.
    pub fn new(root: &[u8], resolved: Result<Resolved, String>) -> (scope: Result<Self, AppError>)
        ensures
            match resolved {
                Ok(r) => if r.is_dir {
                    scope matches Ok(s) && s@ == r.path@
                } else {
                    scope matches Err(err) && err@ == crate::error::AppErrorView::Internal(
                        "--project must be a directory: "@ + engines::lossy_text(r.path@),
                    )
                },
                Err(e) => scope matches Err(err) && err@ == crate::error::AppErrorView::Internal(
                    "--project "@ + engines::lossy_text(root@) + ": "@ + e@,
                ),
            },
    {
        match resolved {
            Ok(r) => {
                if r.is_dir {
                    Ok(Scope { root: r.path })
                } else {
                    let mut msg = "--project must be a directory: ".to_owned();
                    msg.append(utf8_lossy(r.path.as_slice()).as_str());
                    Err(AppError::Internal(msg))
                }
            },
            Err(e) => {
                let mut msg = "--project ".to_owned();
                msg.append(utf8_lossy(root).as_str());
                msg.append(": ");
                msg.append(e.as_str());
                Err(AppError::Internal(msg))
            },
        }
    }

    /// The root.
    pub fn root(&self) -> (root: &[u8])
        ensures
            root@ == self@,
    {
        self.root.as_slice()
    }

    /// Validates that `input` is within the scope, and returns its resolved path. `resolved` is
    /// what came of resolving `input`; as symlinks are followed before the test, one that points
    /// out of the scope is rejected.
    pub fn check(&self, input: &[u8], resolved: Result<Vec<u8>, String>) -> (checked: Result<
        Vec<u8>,
        AppError,
    >)
        ensures
            match resolved {
                Ok(path) => if paths::is_within(path@, self@) {
                    checked matches Ok(p) && p@ == path@
                } else {
                    checked matches Err(err) && err@ == crate::error::AppErrorView::OutOfScope(
                        engines::lossy_text(path@) + " is outside project root "@
                            + engines::lossy_text(self@),
                    )
                },
                Err(e) => checked matches Err(err) && err@ == crate::error::AppErrorView::NotFound(
                    engines::lossy_text(input@) + ": "@ + e@,
                ),
            },
    {
        match resolved {
            Ok(path) => {
                if within(path.as_slice(), self.root.as_slice()) {
                    Ok(path)
                } else {
                    let mut msg = utf8_lossy(path.as_slice());
                    msg.append(" is outside project root ");
                    msg.append(utf8_lossy(self.root.as_slice()).as_str());
                    Err(AppError::OutOfScope(msg))
                }
            },
            Err(e) => {
                let mut msg = utf8_lossy(input);
                msg.append(": ");
                msg.append(e.as_str());
                Err(AppError::NotFound(msg))
            },
        }
    }
}

/// A scope nests: what lies within a path that lies within the root lies within the root.
pub proof fn within_is_transitive(p: Seq<u8>, middle: Seq<u8>, root: Seq<u8>)
    requires
        paths::is_within(p, middle),
        paths::is_within(middle, root),
    ensures
        paths::is_within(p, root),
{
    let c = paths::components(p);
    let m = paths::components(middle);
    let r = paths::components(root);
    assert forall|i: int| 0 <= i < r.len() implies r[i] == c[i] by {
        assert(r[i] == m[i]);
        assert(m[i] == c[i]);
    }
    assert(r =~= c.take(r.len() as int));
}

/// The root is in its own scope.
pub proof fn root_is_within(root: Seq<u8>)
    ensures
        paths::is_within(root, root),
{
    let r = paths::components(root);
    assert(r =~= r.take(r.len() as int));
}

/// What lies in a checked directory under a name of its own is in the scope too.
pub proof fn children_are_within(dir: Seq<u8>, name: Seq<u8>, root: Seq<u8>)
    requires
        paths::is_within(dir, root),
        dir.len() > 0,
        forall|i: int| 0 <= i < name.len() ==> name[i] != paths::SLASH,
        name != seq![paths::DOT, paths::DOT],
    ensures
        paths::is_within(paths::joined(dir, name), root),
{
    paths::joined_is_within(dir, name);
    within_is_transitive(paths::joined(dir, name), dir, root);
}

} // verus!
