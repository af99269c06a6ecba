//! The commands, as functions from what was read to what is to be printed
//! or fetched.

use crate::address::url_parts;
use crate::repository::{parse_token, result_view, token_identity, Repository, SpecifierError};
use crate::roots::{first_or_all, setting_view, shown_roots};
use crate::scan::{lines_of, list, query_of, scan_of, DirTree};
use crate::text::views;
use vstd::prelude::*;

verus! {

/// `root`: the lines to print, which are all the roots or the first.
pub fn command_root(roots: &Vec<String>, all: bool) -> (lines: Vec<String>)
    ensures
        views(lines@) == first_or_all(views(roots@), all),
{
    shown_roots(roots, all)
}

/// `list`: the lines to print, one for each checkout under the roots that
/// the query lets through.
pub fn command_list(
    trees: &Vec<DirTree>,
    exact: bool,
    fullpath: bool,
    unique: bool,
    query: Option<&str>,
) -> (lines: Vec<String>)
    ensures
        views(lines@) == lines_of(
            scan_of(trees@, query_of(setting_view(query), exact)),
            fullpath,
            unique,
        ),
{
    list(trees, query, exact, fullpath, unique)
}

/// `get`: the repository that each of `projects` names, in order, or why
/// it names none. Relative specifiers are read from `cwd` against `root`.
pub fn command_get(projects: &Vec<String>, cwd: &str, root: &str) -> (targets: Vec<
    Result<Repository, SpecifierError>,
>)
    ensures
        targets.len() == projects.len(),
        forall|i: int|
            0 <= i < projects.len() ==> result_view(#[trigger] targets[i]) == token_identity(
                projects[i]@,
                url_parts(projects[i]@),
                root@,
                cwd@,
            ),
        forall|i: int|
            0 <= i < projects.len() && !projects[i]@.contains(':') ==> result_view(
                #[trigger] targets[i],
            ) == token_identity(projects[i]@, None, root@, cwd@),
{
    let mut targets: Vec<Result<Repository, SpecifierError>> = Vec::new();
    let mut k: usize = 0;
    while k < projects.len()
        invariant
            k <= projects.len(),
            targets.len() == k,
            forall|i: int|
                0 <= i < k ==> result_view(#[trigger] targets[i]) == token_identity(
                    projects[i]@,
                    url_parts(projects[i]@),
                    root@,
                    cwd@,
                ),
            forall|i: int|
                0 <= i < k && !projects[i]@.contains(':') ==> result_view(#[trigger] targets[i])
                    == token_identity(projects[i]@, None, root@, cwd@),
        decreases projects.len() - k,
    {
        let target = parse_token(projects[k].as_str(), None, cwd, root);
        targets.push(target);
        k = k + 1;
    }
    targets
}

} // verus!
