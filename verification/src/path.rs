//! Paths as text: parents, joins and what lies under a root. Nothing here
//! looks at a file system.

use crate::text::{
    ends_with, has_prefix, has_suffix, join, join_strs, lemma_split_len, split, split_str,
    starts_with, tail, views, SEPARATOR,
};
use vstd::prelude::*;
use vstd::string::StrSliceExecFns;
use vstd::string::StringExecFns;

verus! {

/// The path one level up: `path` without its last segment. The parent of a
/// path directly under `/`, and of `/` itself, is `/`.
pub open spec fn parent_of(path: Seq<char>) -> Seq<char> {
    let kept = join(split(path, SEPARATOR).drop_last(), "/"@);
    if kept.len() == 0 && starts_with(path, "/"@) {
        "/"@
    } else {
        kept
    }
}

/// `rel` appended to `base` as further segments: one separator is put
/// between them unless `base` already ends with one. An empty `rel` leaves
/// `base` as it is.
pub open spec fn joined(base: Seq<char>, rel: Seq<char>) -> Seq<char> {
    if rel.len() == 0 {
        base
    } else if ends_with(base, "/"@) {
        base + rel
    } else {
        base + "/"@ + rel
    }
}

/// The text with which every path under `root` begins: `root` itself,
/// closed by one separator.
pub open spec fn root_prefix(root: Seq<char>) -> Seq<char> {
    if ends_with(root, "/"@) {
        root
    } else {
        root + "/"@
    }
}

/// What is left of `path` below `root`, or `None` where `path` does not lie
/// under `root`.
pub open spec fn below(path: Seq<char>, root: Seq<char>) -> Option<Seq<char>> {
    let prefix = root_prefix(root);
    if starts_with(path, prefix) {
        Some(path.skip(prefix.len() as int))
    } else {
        None
    }
}

/// The path one level up.
pub fn parent(path: &str) -> (up: String)
    ensures
        up@ == parent_of(path@),
{
    let mut segments = split_str(path, SEPARATOR);
    proof {
        lemma_split_len(path@, SEPARATOR);
    }
    let ghost before = segments@;
    segments.pop();
    proof {
        assert(views(segments@) == views(before).drop_last());
    }
    let kept = join_strs(&segments, "/");
    if kept.as_str().is_empty() && has_prefix(path, "/") {
        "/".to_owned()
    } else {
        kept
    }
}

/// Appends `rel` to `base` as further segments.
pub fn join_path(base: &str, rel: &str) -> (path: String)
    ensures
        path@ == joined(base@, rel@),
{
    let mut path = base.to_owned();
    if rel.is_empty() {
        return path;
    }
    if !has_suffix(base, "/") {
        path.append("/");
    }
    path.append(rel);
    path
}

/// What is left of `path` below `root`.
pub fn strip_root(path: &str, root: &str) -> (rest: Option<String>)
    ensures
        match rest {
            Some(r) => below(path@, root@) == Some(r@),
            None => below(path@, root@) is None,
        },
{
    let mut prefix = root.to_owned();
    if !has_suffix(root, "/") {
        prefix.append("/");
    }
    if has_prefix(path, prefix.as_str()) {
        let skipped: usize = prefix.as_str().unicode_len();
        Some(tail(path, skipped))
    } else {
        None
    }
}

} // verus!
