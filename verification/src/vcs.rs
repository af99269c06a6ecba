//! Version control as far as this crate needs it: the directories that mark
//! a checkout, the decision between cloning and pulling, and the command
//! lines that carry the decision out.

use crate::text::{ends_with, has_suffix, same, views};
use vstd::prelude::*;
use vstd::string::StrSliceExecFns;

verus! {

/// A directory whose presence marks its parent as a checkout.
#[derive(Debug, Clone, Copy, PartialEq, Eq, Structural)]
pub enum VcsMarker {
    Git,
    Subversion,
    Mercurial,
    Darcs,
}

impl VcsMarker {
    /// The name of the marking directory.
    pub open spec fn dir_name_of(self) -> Seq<char> {
        match self {
            VcsMarker::Git => ".git"@,
            VcsMarker::Subversion => ".svn"@,
            VcsMarker::Mercurial => ".hg"@,
            VcsMarker::Darcs => "_darcs"@,
        }
    }

    /// The name of the marking directory.
    pub fn dir_name(self) -> (name: &'static str)
        ensures
            name@ == self.dir_name_of(),
    {
        match self {
            VcsMarker::Git => ".git",
            VcsMarker::Subversion => ".svn",
            VcsMarker::Mercurial => ".hg",
            VcsMarker::Darcs => "_darcs",
        }
    }
}

/// The marker that a directory of this name is, if any.
pub open spec fn marker_of(name: Seq<char>) -> Option<VcsMarker> {
    if name == ".git"@ {
        Some(VcsMarker::Git)
    } else if name == ".svn"@ {
        Some(VcsMarker::Subversion)
    } else if name == ".hg"@ {
        Some(VcsMarker::Mercurial)
    } else if name == "_darcs"@ {
        Some(VcsMarker::Darcs)
    } else {
        None
    }
}

/// One of the names is a marker.
pub open spec fn has_marker(names: Seq<Seq<char>>) -> bool {
    exists|i: int| 0 <= i < names.len() && marker_of(#[trigger] names[i]) is Some
}

/// The marker that a directory of this name is, if any.
pub fn detect_marker(name: &str) -> (marker: Option<VcsMarker>)
    ensures
        marker == marker_of(name@),
{
    if same(name, VcsMarker::Git.dir_name()) {
        Some(VcsMarker::Git)
    } else if same(name, VcsMarker::Subversion.dir_name()) {
        Some(VcsMarker::Subversion)
    } else if same(name, VcsMarker::Mercurial.dir_name()) {
        Some(VcsMarker::Mercurial)
    } else if same(name, VcsMarker::Darcs.dir_name()) {
        Some(VcsMarker::Darcs)
    } else {
        None
    }
}

/// Whether a directory with these entries is the root of a checkout: one
/// of them is a marker.
pub fn is_vcs_root(entries: &Vec<String>) -> (found: bool)
    ensures
        found == has_marker(views(entries@)),
{
    let mut i: usize = 0;
    while i < entries.len()
        invariant
            i <= entries.len(),
            forall|k: int| 0 <= k < i ==> marker_of(#[trigger] views(entries@)[k]) is None,
        decreases entries.len() - i,
    {
        if detect_marker(entries[i].as_str()).is_some() {
            assert(marker_of(views(entries@)[i as int]) is Some);
            return true;
        }
        i = i + 1;
    }
    false
}

/// What to do about a repository whose checkout belongs at `dest`.
#[derive(Debug, Clone, PartialEq, Eq)]
pub enum FetchAction {
    /// Clone `url` into `dest`, with truncated history where `shallow`.
    Clone { url: String, dest: String, shallow: bool },
    /// Pull in the checkout at `dest`.
    Pull { dest: String },
    /// Leave the checkout at `dest` as it is.
    Skip { dest: String },
}

/// The decision: clone what is not there, pull what is there unless
/// `skip_pull`, and leave it alone otherwise.
pub fn plan_fetch(url: String, dest: String, exists: bool, skip_pull: bool, shallow: bool) -> (action:
    FetchAction)
    ensures
        !exists ==> action == (FetchAction::Clone { url, dest, shallow }),
        exists && !skip_pull ==> action == (FetchAction::Pull { dest }),
        exists && skip_pull ==> action == (FetchAction::Skip { dest }),
{
    if !exists {
        FetchAction::Clone { url, dest, shallow }
    } else if !skip_pull {
        FetchAction::Pull { dest }
    } else {
        FetchAction::Skip { dest }
    }
}

/// The arguments that `git` takes for an action; none where nothing is to
/// be done. A pull runs in the checkout and names no path.
pub open spec fn git_arguments_of(action: FetchAction) -> Seq<Seq<char>> {
    match action {
        FetchAction::Clone { url, dest, shallow } => if shallow {
            seq!["clone"@, url@, dest@, "--depth"@, "1"@]
        } else {
            seq!["clone"@, url@, dest@]
        },
        FetchAction::Pull { dest } => seq!["pull"@],
        FetchAction::Skip { dest } => Seq::empty(),
    }
}

/// The arguments that `git` takes for an action.
pub fn git_arguments(action: &FetchAction) -> (args: Vec<String>)
    ensures
        views(args@) == git_arguments_of(*action),
{
    let mut args: Vec<String> = Vec::new();
    match action {
        FetchAction::Clone { url, dest, shallow } => {
            args.push("clone".to_owned());
            args.push(url.clone());
            args.push(dest.clone());
            if *shallow {
                args.push("--depth".to_owned());
                args.push("1".to_owned());
            }
        },
        FetchAction::Pull { dest } => {
            args.push("pull".to_owned());
        },
        FetchAction::Skip { dest } => {},
    }
    proof {
        assert(views(args@) =~= git_arguments_of(*action));
    }
    args
}

/// The arguments with which `git` prints every value of the setting `key`
/// as a path, each closed by a NUL.
pub fn git_config_arguments(key: &str) -> (args: Vec<String>)
    ensures
        views(args@) == seq!["config"@, "--path"@, "--null"@, "--get-all"@, key@],
{
    let mut args: Vec<String> = Vec::new();
    args.push("config".to_owned());
    args.push("--path".to_owned());
    args.push("--null".to_owned());
    args.push("--get-all".to_owned());
    args.push(key.to_owned());
    proof {
        assert(views(args@) =~= seq!["config"@, "--path"@, "--null"@, "--get-all"@, key@]);
    }
    args
}

/// The value in what `git config --null` printed: the output without the
/// NUL that closes it.
pub open spec fn config_value_of(output: Seq<char>) -> Seq<char> {
    if ends_with(output, "\0"@) {
        output.subrange(0, output.len() - "\0"@.len())
    } else {
        output
    }
}

/// The value in what `git config --null` printed.
pub fn config_value(output: &str) -> (value: String)
    ensures
        value@ == config_value_of(output@),
{
    if has_suffix(output, "\0") {
        proof {
            reveal_strlit("\0");
        }
        let n: usize = output.unicode_len();
        output.substring_char(0, n - 1).to_owned()
    } else {
        output.to_owned()
    }
}

} // verus!
