//! Where a remote entry lands locally.

use vstd::prelude::*;

verus! {

/// What `Path::strip_prefix` gives: the rest of `path` below `base`, compared
/// component by component, when `base` is a prefix of it.
pub uninterp spec fn path_strip_prefix(path: Seq<char>, base: Seq<char>) -> Option<Seq<char>>;

/// What `Path::join` gives: `rel` put below `base` (or `rel` itself when it is absolute).
pub uninterp spec fn path_join(base: Seq<char>, rel: Seq<char>) -> Seq<char>;

/// What `Path::parent` gives: the path without its last component, or `None`
/// when it ends in a root or prefix or is empty.
pub uninterp spec fn path_parent(path: Seq<char>) -> Option<Seq<char>>;

/// `Path::parent` on a path given as text. What the parent is (beyond being a
/// function of the path) is not stated here.
#[verifier::external_body]
pub(crate) fn parent(path: &str) -> (r: Option<String>)
    ensures
        r matches Some(s) ==> path_parent(path@) == Some(s@),
        r is None ==> path_parent(path@) is None,
{
    match std::path::Path::new(path).parent() {
        Some(p) => p.to_str().map(String::from),
        None => None,
    }
}

/// `Path::strip_prefix` on paths given as text: the rest of `path` below
/// `base`, or `None` when `base` is not a prefix of `path`. What the rest is
/// (beyond being a function of the two paths) is not stated here.
#[verifier::external_body]
fn strip_prefix(path: &str, base: &str) -> (r: Option<String>)
    ensures
        r matches Some(s) ==> path_strip_prefix(path@, base@) == Some(s@),
        r is None ==> path_strip_prefix(path@, base@) is None,
{
    match std::path::Path::new(path).strip_prefix(base) {
        Ok(rel) => rel.to_str().map(String::from),
        Err(_) => None,
    }
}

/// `Path::join` on paths given as text. The text of the joined path is not
/// stated here beyond being a function of the two paths.
#[verifier::external_body]
pub(crate) fn join(base: &str, rel: &str) -> (r: String)
    ensures
        r@ == path_join(base@, rel@),
{
    std::path::Path::new(base).join(rel).to_string_lossy().into_owned()
}

/// The local path of a remote entry: its path below `remote_root`, put below
/// `local_root`; `None` when the entry does not lie below `remote_root`.
pub fn local_target(entry_path: &str, remote_root: &str, local_root: &str) -> (r: Option<String>)
    ensures
        match path_strip_prefix(entry_path@, remote_root@) {
            Some(rel) => r matches Some(t) && t@ == path_join(local_root@, rel),
            None => r is None,
        },
{
    match strip_prefix(entry_path, remote_root) {
        Some(rel) => Some(join(local_root, rel.as_str())),
        None => None,
    }
}

} // verus!
