//! File-system paths written as strings, resolved the way `std::path` resolves them.

use vstd::prelude::*;

use crate::url::opt_view;

verus! {

/// A path is absolute when it begins at the root (`/`), as on Unix.
pub open spec fn path_is_absolute(p: Seq<char>) -> bool {
    p.len() > 0 && p[0] == '/'
}

/// What `Path::parent` gives for a path: the path without its final component, `None` when
/// it ends in a root or is empty.
pub uninterp spec fn path_parent(p: Seq<char>) -> Option<Seq<char>>;

/// What `Path::join` gives on Unix: `rest` itself when it is absolute; otherwise `base`,
/// then a `/` unless `base` is empty or already ends in one, then `rest`.
pub open spec fn path_join(base: Seq<char>, rest: Seq<char>) -> Seq<char> {
    if path_is_absolute(rest) {
        rest
    } else if base.len() == 0 || base.last() == '/' {
        base + rest
    } else {
        base + seq!['/'] + rest
    }
}

/// `std::path::Path::parent`, read back as a string; trusted to give `path_parent` of the
/// path, a function of the path alone. Which parent that is is not stated.
#[verifier::external_body]
pub(crate) fn parent_of(p: &str) -> (r: Option<String>)
    ensures
        opt_view(r) == path_parent(p@),
{
    std::path::Path::new(p).parent().and_then(std::path::Path::to_str).map(str::to_owned)
}

/// `std::path::Path::join`, read back as a string; trusted to give `path_join` of the two
/// paths: on Unix an absolute `rest` replaces `base`, and otherwise a separator is put
/// between them unless `base` is empty or ends in one. Both are UTF-8, so reading the joined
/// path back as a string loses nothing.
#[verifier::external_body]
pub(crate) fn join_paths(base: &str, rest: &str) -> (r: String)
    ensures
        r@ == path_join(base@, rest@),
{
    std::path::Path::new(base).join(rest).to_string_lossy().into_owned()
}

/// Whether a path begins at the root.
pub fn is_absolute(p: &str) -> (b: bool)
    ensures
        b == path_is_absolute(p@),
{
    let c = crate::text::to_chars(p);
    c.len() > 0 && c[0] == '/'
}

/// Where a path written relative to a file's directory lies: an absolute path as it is,
/// else the path adjoined to the file's parent directory (`.` when it has none).
pub open spec fn beside(file: Seq<char>, configured: Seq<char>) -> Seq<char> {
    if path_is_absolute(configured) {
        configured
    } else {
        path_join(
            match path_parent(file) {
                Some(d) => d,
                None => "."@,
            },
            configured,
        )
    }
}

/// Resolves `configured` against the directory of the file at `file`.
pub fn resolve_beside(file: &str, configured: String) -> (r: String)
    ensures
        r@ == beside(file@, configured@),
{
    if is_absolute(configured.as_str()) {
        return configured;
    }
    match parent_of(file) {
        Some(dir) => join_paths(dir.as_str(), configured.as_str()),
        None => join_paths(".", configured.as_str()),
    }
}

} // verus!
