//! The workspace: its roots and the checkouts found under them.

use crate::address::url_parts;
use crate::repository::{
    remote_identity, shorthand_identity, Repository, RepositoryView, SpecifierError,
};
use crate::roots::{first_or_all, shown_roots};
use crate::scan::{
    describe, lines_of, repos_view, scan, scan_of, DirTree, LocalRepository, Query, QueryView,
};
use crate::text::views;
use vstd::prelude::*;

verus! {

/// The roots and what a scan found under them.
#[derive(Debug)]
pub struct Workspace {
    /// The roots, in order. The first is where a clone goes unless told
    /// otherwise.
    pub roots: Vec<String>,
    /// The checkouts, root by root.
    pub repos: Vec<LocalRepository>,
}

/// What a request to clone comes to.
#[derive(Debug, Clone, PartialEq, Eq)]
pub enum CloneRequest {
    /// The root to clone into does not exist: nothing is cloned.
    RootMissing { root: String },
    /// `repository` is to be cloned into `root`.
    Into { repository: Repository, root: String },
}

/// The paths of the roots of a snapshot.
pub open spec fn root_names(trees: Seq<DirTree>) -> Seq<Seq<char>> {
    Seq::new(trees.len(), |i: int| trees[i].name@)
}

/// `r` is the answer to a request to clone what has the identity
/// `identity` into the root `chosen`: nothing where the root does not
/// exist, else the repository with that identity, or the reason why there
/// is none.
pub open spec fn answers(
    r: Result<CloneRequest, SpecifierError>,
    identity: Result<RepositoryView, SpecifierError>,
    chosen: Seq<char>,
    root_exists: bool,
) -> bool {
    match r {
        Ok(CloneRequest::RootMissing { root }) => !root_exists && root@ == chosen,
        Ok(CloneRequest::Into { repository, root }) => root_exists && identity == Ok::<
            RepositoryView,
            SpecifierError,
        >(repository@) && root@ == chosen,
        Err(e) => root_exists && identity == Err::<RepositoryView, SpecifierError>(e),
    }
}

impl Workspace {
    /// Every checkout has a host and one segment more at least.
    pub open spec fn well_formed(self) -> bool {
        forall|k: int| 0 <= k < self.repos@.len() ==> (#[trigger] self.repos@[k]).well_formed()
    }

    /// The root that a clone goes into: the one given, else the first
    /// root, else the empty path.
    pub open spec fn target_root(self, root: Option<&str>) -> Seq<char> {
        match root {
            Some(given) => given@,
            None => if self.roots@.len() > 0 {
                self.roots@[0]@
            } else {
                Seq::empty()
            },
        }
    }

    /// The workspace of a snapshot: its roots, and every checkout under
    /// them.
    pub fn new(trees: &Vec<DirTree>) -> (workspace: Workspace)
        ensures
            views(workspace.roots@) == root_names(trees@),
            repos_view(workspace.repos@) == scan_of(trees@, QueryView::Any),
            workspace.well_formed(),
    {
        let mut roots: Vec<String> = Vec::new();
        let mut i: usize = 0;
        while i < trees.len()
            invariant
                i <= trees.len(),
                views(roots@) == root_names(trees@).subrange(0, i as int),
            decreases trees.len() - i,
        {
            let name = trees[i].name.clone();
            proof {
                assert(views(roots@.push(name)) == views(roots@).push(name@));
                assert(root_names(trees@).subrange(0, i + 1) == root_names(trees@).subrange(
                    0,
                    i as int,
                ).push(trees@[i as int].name@));
            }
            roots.push(name);
            i = i + 1;
        }
        proof {
            assert(root_names(trees@).subrange(0, trees@.len() as int) == root_names(trees@));
        }
        let repos = scan(trees, &Query::Any);
        Workspace { roots, repos }
    }

    /// The roots to show: all of them, or the first.
    pub fn show_roots(&self, all: bool) -> (lines: Vec<String>)
        ensures
            views(lines@) == first_or_all(views(self.roots@), all),
    {
        shown_roots(&self.roots, all)
    }

    /// The path of every checkout, root by root.
    pub fn show_repositories(&self) -> (lines: Vec<String>)
        requires
            self.well_formed(),
        ensures
            views(lines@) == lines_of(repos_view(self.repos@), true, false),
    {
        describe(&self.repos, true, false)
    }

    /// What a request to clone `s` comes to. It goes into `root` or, with
    /// none given, into the first root; `root_exists` says whether that
    /// directory is there. Where it is not, nothing is cloned and `s` is
    /// not looked at.
    pub fn clone_from(&self, s: &str, root: Option<&str>, root_exists: bool) -> (r: Result<
        CloneRequest,
        SpecifierError,
    >)
        ensures
            answers(r, remote_identity(s@, url_parts(s@)), self.target_root(root), root_exists),
            !s@.contains(':') ==> answers(
                r,
                shorthand_identity(s@),
                self.target_root(root),
                root_exists,
            ),
    {
        let chosen = match root {
            Some(given) => given.to_owned(),
            None => if self.roots.len() > 0 {
                self.roots[0].clone()
            } else {
                String::new()
            },
        };
        if !root_exists {
            return Ok(CloneRequest::RootMissing { root: chosen });
        }
        match Repository::from_remote(s) {
            Ok(repository) => Ok(CloneRequest::Into { repository, root: chosen }),
            Err(e) => Err(e),
        }
    }
}

} // verus!
