//! Finding the checkouts under the workspace roots.
//!
//! A scan works on a snapshot of the directories under a root. A directory
//! that holds a marker is a checkout: it is reported and not entered. Any
//! other directory is entered. A directory that could not be read is one
//! without entries.

use crate::path::{join_path, joined};
use crate::roots::setting_view;
use crate::text::{contains, has_substring, join, join_strs, same, views};
use crate::vcs::{detect_marker, has_marker, marker_of};
use vstd::prelude::*;

verus! {

/// A directory: its name and the directories in it. The name of a root is
/// the path of the root.
#[derive(Debug)]
pub struct DirTree {
    pub name: String,
    pub children: Vec<DirTree>,
}

impl DirTree {
    /// The names of the directories in this one.
    pub open spec fn child_names(self) -> Seq<Seq<char>> {
        Seq::new(self.children@.len(), |i: int| self.children@[i].name@)
    }

    /// This directory is the root of a checkout.
    pub open spec fn is_checkout_root(self) -> bool {
        has_marker(self.child_names())
    }

    /// No two directories in one directory have the same name, here and
    /// all the way down.
    pub open spec fn well_formed(self) -> bool
        decreases self,
    {
        &&& forall|i: int, j: int|
            0 <= i < j < self.children@.len() ==> self.children@[i].name@
                != self.children@[j].name@
        &&& forall|i: int|
            0 <= i < self.children@.len() ==> (#[trigger] self.children@[i]).well_formed()
    }

    /// Whether this directory is the root of a checkout.
    pub fn is_checkout(&self) -> (found: bool)
        ensures
            found == self.is_checkout_root(),
    {
        let mut i: usize = 0;
        while i < self.children.len()
            invariant
                i <= self.children.len(),
                forall|k: int| 0 <= k < i ==> marker_of(#[trigger] self.child_names()[k]) is None,
            decreases self.children.len() - i,
        {
            if detect_marker(self.children[i].name.as_str()).is_some() {
                assert(marker_of(self.child_names()[i as int]) is Some);
                return true;
            }
            i = i + 1;
        }
        false
    }
}

/// What a listing asks of the last segment of a checkout's path.
#[derive(Debug, Clone, PartialEq, Eq)]
pub enum Query {
    /// Nothing.
    Any,
    /// To be this text.
    Exact(String),
    /// To hold this text.
    Containing(String),
}

/// A [`Query`] as sequences of characters.
pub enum QueryView {
    Any,
    Exact(Seq<char>),
    Containing(Seq<char>),
}

impl View for Query {
    type V = QueryView;

    open spec fn view(&self) -> QueryView {
        match self {
            Query::Any => QueryView::Any,
            Query::Exact(wanted) => QueryView::Exact(wanted@),
            Query::Containing(wanted) => QueryView::Containing(wanted@),
        }
    }
}

impl QueryView {
    /// The query accepts `segment`.
    pub open spec fn accepts(self, segment: Seq<char>) -> bool {
        match self {
            QueryView::Any => true,
            QueryView::Exact(wanted) => segment == wanted,
            QueryView::Containing(wanted) => contains(segment, wanted),
        }
    }
}

/// The query of a listing: none where no text is given, else for the text
/// itself where `exact`, else for what holds the text.
pub open spec fn query_of(text: Option<Seq<char>>, exact: bool) -> QueryView {
    match text {
        None => QueryView::Any,
        Some(t) => if exact {
            QueryView::Exact(t)
        } else {
            QueryView::Containing(t)
        },
    }
}

impl Query {
    /// The query of a listing.
    pub fn new(text: Option<&str>, exact: bool) -> (query: Query)
        ensures
            query@ == query_of(setting_view(text), exact),
    {
        match text {
            None => Query::Any,
            Some(t) => if exact {
                Query::Exact(t.to_owned())
            } else {
                Query::Containing(t.to_owned())
            },
        }
    }

    /// Whether the query accepts `segment`.
    pub fn matches(&self, segment: &str) -> (accepted: bool)
        ensures
            accepted == self@.accepts(segment@),
    {
        match self {
            Query::Any => true,
            Query::Exact(wanted) => same(segment, wanted.as_str()),
            Query::Containing(wanted) => has_substring(segment, wanted.as_str()),
        }
    }
}

/// A checkout: the root it was found under and its path below the root,
/// segment by segment. The first segment is the host.
#[derive(Debug, Clone, PartialEq, Eq)]
pub struct LocalRepository {
    pub root: String,
    pub relative_path: Vec<String>,
}

/// A [`LocalRepository`] as sequences of characters.
pub struct LocalRepositoryView {
    pub root: Seq<char>,
    pub path: Seq<Seq<char>>,
}

impl View for LocalRepository {
    type V = LocalRepositoryView;

    open spec fn view(&self) -> LocalRepositoryView {
        LocalRepositoryView { root: self.root@, path: views(self.relative_path@) }
    }
}

impl LocalRepositoryView {
    /// The path has a host and one segment more at least.
    pub open spec fn well_formed(self) -> bool {
        self.path.len() >= 2
    }

    /// The host: the first segment.
    pub open spec fn host(self) -> Seq<char> {
        self.path[0]
    }

    /// The owner: the last segment but one after the host, or the only
    /// one.
    pub open spec fn owner(self) -> Seq<char> {
        if self.path.len() == 2 {
            self.path[1]
        } else {
            self.path[self.path.len() - 2]
        }
    }

    /// The name: the last segment.
    pub open spec fn name(self) -> Seq<char> {
        self.path.last()
    }

    /// The path below the host, with every segment between owner and name
    /// that the checkout lies under.
    pub open spec fn identity(self) -> Seq<char> {
        join(self.path.skip(1), "/"@)
    }

    /// The path below the root.
    pub open spec fn relative(self) -> Seq<char> {
        join(self.path, "/"@)
    }

    /// The path of the checkout.
    pub open spec fn full_path(self) -> Seq<char> {
        joined(self.root, self.relative())
    }
}

impl LocalRepository {
    /// The path has a host and one segment more at least.
    pub open spec fn well_formed(self) -> bool {
        self@.well_formed()
    }

    /// The host.
    pub fn host(&self) -> (host: String)
        requires
            self.well_formed(),
        ensures
            host@ == self@.host(),
    {
        self.relative_path[0].clone()
    }

    /// The owner.
    pub fn owner(&self) -> (owner: String)
        requires
            self.well_formed(),
        ensures
            owner@ == self@.owner(),
    {
        let n: usize = self.relative_path.len();
        if n == 2 {
            self.relative_path[1].clone()
        } else {
            self.relative_path[n - 2].clone()
        }
    }

    /// The name.
    pub fn name(&self) -> (name: String)
        requires
            self.well_formed(),
        ensures
            name@ == self@.name(),
    {
        let n: usize = self.relative_path.len();
        self.relative_path[n - 1].clone()
    }

    /// The path below the host.
    pub fn identity(&self) -> (identity: String)
        requires
            self.well_formed(),
        ensures
            identity@ == self@.identity(),
    {
        let mut rest = copy_strings(&self.relative_path);
        let ghost all = rest@;
        rest.remove(0);
        proof {
            assert(views(rest@) == views(all).skip(1));
        }
        join_strs(&rest, "/")
    }

    /// The path below the root.
    pub fn relative(&self) -> (relative: String)
        ensures
            relative@ == self@.relative(),
    {
        join_strs(&self.relative_path, "/")
    }

    /// The path of the checkout.
    pub fn full_path(&self) -> (path: String)
        ensures
            path@ == self@.full_path(),
    {
        let relative = self.relative();
        join_path(self.root.as_str(), relative.as_str())
    }
}

/// The views of a sequence of checkouts.
pub open spec fn repos_view(repos: Seq<LocalRepository>) -> Seq<LocalRepositoryView> {
    repos.map_values(|r: LocalRepository| r@)
}

/// The checkouts that a scan reports for the directory `tree`, which lies
/// at the path `at` below `root`, where no more than its first `upto`
/// directories are entered.
///
/// A checkout root is reported where its path has a host and one segment
/// more at least, and the query accepts its last segment; it is never
/// entered. Any other directory is entered, its directories in order.
pub open spec fn checkouts(
    tree: DirTree,
    root: Seq<char>,
    at: Seq<Seq<char>>,
    upto: nat,
    query: QueryView,
) -> Seq<LocalRepositoryView>
    decreases tree, upto,
{
    if tree.is_checkout_root() {
        if at.len() >= 2 && query.accepts(at.last()) {
            seq![LocalRepositoryView { root: root, path: at }]
        } else {
            Seq::empty()
        }
    } else if upto == 0 || upto > tree.children@.len() {
        Seq::empty()
    } else {
        let child = tree.children@[upto - 1];
        checkouts(tree, root, at, (upto - 1) as nat, query) + checkouts(
            child,
            root,
            at.push(child.name@),
            child.children@.len(),
            query,
        )
    }
}

/// The checkouts under one root.
pub open spec fn scan_root(tree: DirTree, query: QueryView) -> Seq<LocalRepositoryView> {
    checkouts(tree, tree.name@, Seq::empty(), tree.children@.len(), query)
}

/// The checkouts under all the roots, root by root.
pub open spec fn scan_of(trees: Seq<DirTree>, query: QueryView) -> Seq<LocalRepositoryView>
    decreases trees.len(),
{
    if trees.len() == 0 {
        Seq::empty()
    } else {
        scan_of(trees.drop_last(), query) + scan_root(trees.last(), query)
    }
}

/// A copy of a list of strings.
fn copy_strings(list: &Vec<String>) -> (copy: Vec<String>)
    ensures
        views(copy@) == views(list@),
{
    let mut copy: Vec<String> = Vec::new();
    let mut i: usize = 0;
    while i < list.len()
        invariant
            i <= list.len(),
            views(copy@) == views(list@).subrange(0, i as int),
        decreases list.len() - i,
    {
        let item = list[i].clone();
        proof {
            assert(views(copy@.push(item)) == views(copy@).push(item@));
            assert(views(list@).subrange(0, i + 1) == views(list@).subrange(0, i as int).push(
                list@[i as int]@,
            ));
        }
        copy.push(item);
        i = i + 1;
    }
    proof {
        assert(views(list@).subrange(0, list@.len() as int) == views(list@));
    }
    copy
}

/// Adds to `found` the checkouts in `tree`, which lies at `at` below `root`.
pub fn collect_checkouts(
    tree: &DirTree,
    root: &str,
    at: &Vec<String>,
    query: &Query,
    found: &mut Vec<LocalRepository>,
)
    ensures
        repos_view(final(found)@) == repos_view(old(found)@) + checkouts(
            *tree,
            root@,
            views(at@),
            tree.children@.len(),
            query@,
        ),
    decreases tree,
{
    let ghost before = repos_view(found@);
    if tree.is_checkout() {
        if at.len() >= 2 && query.matches(at[at.len() - 1].as_str()) {
            let repo = LocalRepository { root: root.to_owned(), relative_path: copy_strings(at) };
            proof {
                assert(views(at@).last() == at@[at.len() - 1]@);
                assert(repos_view(found@.push(repo)) == repos_view(found@).push(repo@));
                assert(before.push(repo@) == before + seq![repo@]);
            }
            found.push(repo);
        } else {
            proof {
                assert(at.len() >= 2 ==> views(at@).last() == at@[at.len() - 1]@);
                assert(before + Seq::<LocalRepositoryView>::empty() == before);
            }
        }
        return;
    }
    let mut i: usize = 0;
    proof {
        assert(before + Seq::<LocalRepositoryView>::empty() == before);
    }
    while i < tree.children.len()
        invariant
            i <= tree.children.len(),
            !tree.is_checkout_root(),
            repos_view(found@) == before + checkouts(*tree, root@, views(at@), i as nat, query@),
        decreases tree.children.len() - i,
    {
        let child = &tree.children[i];
        let mut below = copy_strings(at);
        let name = child.name.clone();
        proof {
            assert(views(below@.push(name)) == views(at@).push(child.name@));
        }
        below.push(name);
        let ghost so_far = repos_view(found@);
        collect_checkouts(child, root, &below, query, found);
        proof {
            let first = checkouts(*tree, root@, views(at@), i as nat, query@);
            let next = checkouts(
                *child,
                root@,
                views(at@).push(child.name@),
                child.children@.len(),
                query@,
            );
            assert(so_far + next == before + (first + next));
        }
        i = i + 1;
    }
}

/// The checkouts under the roots, root by root, of which `query` accepts
/// the last segment.
pub fn scan(trees: &Vec<DirTree>, query: &Query) -> (found: Vec<LocalRepository>)
    ensures
        repos_view(found@) == scan_of(trees@, query@),
        forall|k: int| 0 <= k < found.len() ==> (#[trigger] found[k]).well_formed(),
{
    let mut found: Vec<LocalRepository> = Vec::new();
    let top: Vec<String> = Vec::new();
    let mut i: usize = 0;
    proof {
        assert(repos_view(found@) == Seq::<LocalRepositoryView>::empty());
        assert(trees@.subrange(0, 0) == Seq::<DirTree>::empty());
        assert(views(top@) == Seq::<Seq<char>>::empty());
    }
    while i < trees.len()
        invariant
            i <= trees.len(),
            views(top@) == Seq::<Seq<char>>::empty(),
            repos_view(found@) == scan_of(trees@.subrange(0, i as int), query@),
        decreases trees.len() - i,
    {
        proof {
            let next = trees@.subrange(0, i + 1);
            assert(next.drop_last() == trees@.subrange(0, i as int));
            assert(next.last() == trees@[i as int]);
        }
        collect_checkouts(&trees[i], trees[i].name.as_str(), &top, query, &mut found);
        i = i + 1;
    }
    proof {
        assert(trees@.subrange(0, trees@.len() as int) == trees@);
        assert forall|k: int| 0 <= k < found.len() implies (#[trigger] found[k]).well_formed() by {
            assert(repos_view(found@)[k] == found[k]@);
            let _ = lemma_scan_shape(trees@, query@, k);
        }
    }
    found
}

/// One line of a listing: the path of the checkout where `fullpath`, else
/// its last segment where `unique`, else its path below the root.
pub open spec fn line_of(r: LocalRepositoryView, fullpath: bool, unique: bool) -> Seq<char> {
    if fullpath {
        r.full_path()
    } else if unique {
        r.name()
    } else {
        r.relative()
    }
}

/// The lines of a listing, one for each checkout.
pub open spec fn lines_of(repos: Seq<LocalRepositoryView>, fullpath: bool, unique: bool) -> Seq<
    Seq<char>,
> {
    repos.map_values(|r: LocalRepositoryView| line_of(r, fullpath, unique))
}

/// One line for each checkout, in order.
pub fn describe(repos: &Vec<LocalRepository>, fullpath: bool, unique: bool) -> (lines: Vec<String>)
    requires
        forall|k: int| 0 <= k < repos.len() ==> (#[trigger] repos[k]).well_formed(),
    ensures
        views(lines@) == lines_of(repos_view(repos@), fullpath, unique),
{
    let mut lines: Vec<String> = Vec::new();
    let mut i: usize = 0;
    while i < repos.len()
        invariant
            i <= repos.len(),
            forall|k: int| 0 <= k < repos.len() ==> (#[trigger] repos[k]).well_formed(),
            views(lines@) == lines_of(repos_view(repos@), fullpath, unique).subrange(0, i as int),
        decreases repos.len() - i,
    {
        let repo = &repos[i];
        assert(repo.well_formed());
        let line = if fullpath {
            repo.full_path()
        } else if unique {
            repo.name()
        } else {
            repo.relative()
        };
        proof {
            let all = lines_of(repos_view(repos@), fullpath, unique);
            assert(repos_view(repos@)[i as int] == repo@);
            assert(views(lines@.push(line)) == views(lines@).push(line@));
            assert(all.subrange(0, i + 1) == all.subrange(0, i as int).push(line@));
        }
        lines.push(line);
        i = i + 1;
    }
    proof {
        let all = lines_of(repos_view(repos@), fullpath, unique);
        assert(all.subrange(0, repos@.len() as int) == all);
    }
    lines
}

/// The listing of the checkouts under the roots, root by root and in each
/// root in the order of the scan. With a `text`, only the checkouts are
/// listed whose last segment is the text, where `exact`, or else holds it.
/// A line is the path of the checkout where `fullpath`, else its last
/// segment where `unique`, else its path below the root. Two checkouts
/// that give the same line are listed twice.
pub fn list(trees: &Vec<DirTree>, text: Option<&str>, exact: bool, fullpath: bool, unique: bool) -> (lines:
    Vec<String>)
    ensures
        views(lines@) == lines_of(
            scan_of(trees@, query_of(setting_view(text), exact)),
            fullpath,
            unique,
        ),
{
    let query = Query::new(text, exact);
    let found = scan(trees, &query);
    describe(&found, fullpath, unique)
}

/// Of `repos`, those whose last segment `query` accepts, in their order.
pub open spec fn accepted(repos: Seq<LocalRepositoryView>, query: QueryView) -> Seq<
    LocalRepositoryView,
> {
    repos.filter(|r: LocalRepositoryView| query.accepts(r.path.last()))
}

/// What holds of the `k`-th checkout that a scan of `tree` reports: it lies
/// under `root` at or below the path of `tree`, its path has a host and one
/// segment more at least, and `query` accepts its last segment. Where
/// `tree` is no checkout itself, the checkout lies in the directory of
/// `tree` whose index is returned.
pub proof fn lemma_checkout_shape(
    tree: DirTree,
    root: Seq<char>,
    at: Seq<Seq<char>>,
    upto: nat,
    query: QueryView,
    k: int,
) -> (m: int)
    requires
        0 <= k < checkouts(tree, root, at, upto, query).len(),
    ensures
        checkouts(tree, root, at, upto, query)[k].root == root,
        at.is_prefix_of(checkouts(tree, root, at, upto, query)[k].path),
        checkouts(tree, root, at, upto, query)[k].path.len() >= 2,
        query.accepts(checkouts(tree, root, at, upto, query)[k].path.last()),
        tree.is_checkout_root() ==> checkouts(tree, root, at, upto, query)[k].path == at,
        !tree.is_checkout_root() ==> {
            &&& 0 <= m < upto
            &&& m < tree.children@.len()
            &&& checkouts(tree, root, at, upto, query)[k].path.len() > at.len()
            &&& checkouts(tree, root, at, upto, query)[k].path[at.len() as int]
                == tree.children@[m].name@
        },
    decreases tree, upto,
{
    if tree.is_checkout_root() {
        0
    } else {
        let child = tree.children@[upto - 1];
        let earlier = checkouts(tree, root, at, (upto - 1) as nat, query);
        if k < earlier.len() {
            lemma_checkout_shape(tree, root, at, (upto - 1) as nat, query, k)
        } else {
            let deeper = at.push(child.name@);
            let inner = lemma_checkout_shape(
                child,
                root,
                deeper,
                child.children@.len(),
                query,
                k - earlier.len(),
            );
            let path = checkouts(child, root, deeper, child.children@.len(), query)[k
                - earlier.len()].path;
            assert(path.subrange(0, deeper.len() as int)[at.len() as int] == child.name@);
            assert(path.subrange(0, at.len() as int) == deeper.subrange(0, at.len() as int));
            upto - 1
        }
    }
}

/// No checkout that a scan of `tree` reports lies at or below another.
pub proof fn lemma_checkouts_apart(
    tree: DirTree,
    root: Seq<char>,
    at: Seq<Seq<char>>,
    upto: nat,
    query: QueryView,
    i: int,
    j: int,
)
    requires
        tree.well_formed(),
        0 <= i < checkouts(tree, root, at, upto, query).len(),
        0 <= j < checkouts(tree, root, at, upto, query).len(),
        i != j,
    ensures
        !checkouts(tree, root, at, upto, query)[i].path.is_prefix_of(
            checkouts(tree, root, at, upto, query)[j].path,
        ),
    decreases tree, upto,
{
    if !tree.is_checkout_root() {
        let child = tree.children@[upto - 1];
        let earlier = checkouts(tree, root, at, (upto - 1) as nat, query);
        let deeper = at.push(child.name@);
        let later = checkouts(child, root, deeper, child.children@.len(), query);
        let n: int = earlier.len() as int;
        if i < n && j < n {
            lemma_checkouts_apart(tree, root, at, (upto - 1) as nat, query, i, j);
        } else if i >= n && j >= n {
            lemma_checkouts_apart(child, root, deeper, child.children@.len(), query, i - n, j - n);
        } else {
            let (a, b) = if i < n {
                (i, j - n)
            } else {
                (j, i - n)
            };
            let m = lemma_checkout_shape(tree, root, at, (upto - 1) as nat, query, a);
            let _ = lemma_checkout_shape(child, root, deeper, child.children@.len(), query, b);
            let one = earlier[a].path;
            let other = later[b].path;
            assert(other.subrange(0, deeper.len() as int)[at.len() as int] == child.name@);
            assert(one[at.len() as int] != other[at.len() as int]);
            if one.is_prefix_of(other) {
                assert(other.subrange(0, one.len() as int)[at.len() as int] == one[at.len() as int]);
            }
            if other.is_prefix_of(one) {
                assert(one.subrange(0, other.len() as int)[at.len() as int] == other[at.len() as int]);
            }
        }
    }
}

/// Every checkout that a scan reports lies under one of the roots, at a
/// path with a host and one segment more at least, and the query accepts
/// its last segment. The index of the root is returned.
pub proof fn lemma_scan_shape(trees: Seq<DirTree>, query: QueryView, k: int) -> (t: int)
    requires
        0 <= k < scan_of(trees, query).len(),
    ensures
        0 <= t < trees.len(),
        scan_of(trees, query)[k].root == trees[t].name@,
        scan_of(trees, query)[k].well_formed(),
        query.accepts(scan_of(trees, query)[k].path.last()),
    decreases trees.len(),
{
    let earlier = scan_of(trees.drop_last(), query);
    if k < earlier.len() {
        lemma_scan_shape(trees.drop_last(), query, k)
    } else {
        let tree = trees.last();
        let _ = lemma_checkout_shape(
            tree,
            tree.name@,
            Seq::empty(),
            tree.children@.len(),
            query,
            k - earlier.len(),
        );
        trees.len() - 1
    }
}

/// A scan never reports a path inside a checkout as a checkout of its own:
/// of the checkouts under one root, none lies at or below another. Every
/// one of them lies under that root, at a path with a host and one segment
/// more at least.
pub proof fn law_checkouts_do_not_nest(tree: DirTree, query: QueryView, i: int, j: int)
    requires
        tree.well_formed(),
        0 <= i < scan_root(tree, query).len(),
        0 <= j < scan_root(tree, query).len(),
        i != j,
    ensures
        !scan_root(tree, query)[i].path.is_prefix_of(scan_root(tree, query)[j].path),
        scan_root(tree, query)[i].root == tree.name@,
        scan_root(tree, query)[i].path.len() >= 2,
{
    lemma_checkouts_apart(tree, tree.name@, Seq::empty(), tree.children@.len(), query, i, j);
    let _ = lemma_checkout_shape(tree, tree.name@, Seq::empty(), tree.children@.len(), query, i);
}

/// Two roots are scanned one after the other, and what is found under one
/// stays apart from what is found under the other: a checkout at the same
/// path under both is reported twice, once for each root.
pub proof fn law_roots_kept_apart(first: DirTree, second: DirTree, query: QueryView, i: int, j: int)
    requires
        0 <= i < scan_root(first, query).len(),
        0 <= j < scan_root(second, query).len(),
    ensures
        scan_of(seq![first, second], query) == scan_root(first, query) + scan_root(second, query),
        scan_of(seq![first, second], query)[i] == scan_root(first, query)[i],
        scan_of(seq![first, second], query)[scan_root(first, query).len() + j] == scan_root(
            second,
            query,
        )[j],
        scan_root(first, query)[i].root == first.name@,
        scan_root(second, query)[j].root == second.name@,
{
    let both = seq![first, second];
    assert(both.drop_last() == seq![first]);
    assert(seq![first].drop_last() == Seq::<DirTree>::empty());
    assert(scan_of(seq![first], query) == scan_root(first, query)) by {
        assert(scan_of(Seq::<DirTree>::empty(), query) + scan_root(first, query) == scan_root(
            first,
            query,
        ));
    }
    let _ = lemma_checkout_shape(first, first.name@, Seq::empty(), first.children@.len(), query, i);
    let _ = lemma_checkout_shape(
        second,
        second.name@,
        Seq::empty(),
        second.children@.len(),
        query,
        j,
    );
}

/// `a` comes before `b` in the order of a dictionary, character by
/// character.
pub open spec fn text_before(a: Seq<char>, b: Seq<char>) -> bool
    decreases a.len(),
{
    if b.len() == 0 {
        false
    } else if a.len() == 0 {
        true
    } else if a[0] != b[0] {
        (a[0] as u32) < (b[0] as u32)
    } else {
        text_before(a.skip(1), b.skip(1))
    }
}

/// The path `p` comes before the path `q`: where they part ways, the
/// segment of `p` comes before the segment of `q`.
pub open spec fn path_before(p: Seq<Seq<char>>, q: Seq<Seq<char>>) -> bool {
    exists|k: int|
        0 <= k < p.len() && k < q.len() && p.subrange(0, k) == q.subrange(0, k) && text_before(
            #[trigger] p[k],
            q[k],
        )
}

/// The directories in every directory stand in the order of their names,
/// here and all the way down.
pub open spec fn in_name_order(tree: DirTree) -> bool
    decreases tree,
{
    &&& forall|i: int, j: int|
        0 <= i < j < tree.children@.len() ==> text_before(
            #[trigger] tree.children@[i].name@,
            #[trigger] tree.children@[j].name@,
        )
    &&& forall|i: int|
        0 <= i < tree.children@.len() ==> in_name_order(#[trigger] tree.children@[i])
}

/// Of the checkouts that a scan of a snapshot in name order reports, an
/// earlier one comes before a later one.
pub proof fn lemma_checkouts_in_order(
    tree: DirTree,
    root: Seq<char>,
    at: Seq<Seq<char>>,
    upto: nat,
    query: QueryView,
    i: int,
    j: int,
)
    requires
        in_name_order(tree),
        0 <= i < j < checkouts(tree, root, at, upto, query).len(),
    ensures
        path_before(
            checkouts(tree, root, at, upto, query)[i].path,
            checkouts(tree, root, at, upto, query)[j].path,
        ),
    decreases tree, upto,
{
    if !tree.is_checkout_root() {
        let child = tree.children@[upto - 1];
        let earlier = checkouts(tree, root, at, (upto - 1) as nat, query);
        let deeper = at.push(child.name@);
        let later = checkouts(child, root, deeper, child.children@.len(), query);
        let n: int = earlier.len() as int;
        if j < n {
            lemma_checkouts_in_order(tree, root, at, (upto - 1) as nat, query, i, j);
        } else if i >= n {
            lemma_checkouts_in_order(
                child,
                root,
                deeper,
                child.children@.len(),
                query,
                i - n,
                j - n,
            );
        } else {
            let m = lemma_checkout_shape(tree, root, at, (upto - 1) as nat, query, i);
            let _ = lemma_checkout_shape(child, root, deeper, child.children@.len(), query, j - n);
            let one = earlier[i].path;
            let other = later[j - n].path;
            let k: int = at.len() as int;
            assert(other.subrange(0, deeper.len() as int)[k] == child.name@);
            assert(other.subrange(0, k) == deeper.subrange(0, k));
            assert(one.subrange(0, k) == other.subrange(0, k));
            assert(text_before(tree.children@[m].name@, tree.children@[upto - 1].name@));
            assert(text_before(one[k], other[k]));
        }
    }
}

/// The checkouts under a root come in the order of their paths, where the
/// snapshot has the directories of every directory in the order of their
/// names.
pub proof fn law_checkouts_in_path_order(tree: DirTree, query: QueryView, i: int, j: int)
    requires
        in_name_order(tree),
        0 <= i < j < scan_root(tree, query).len(),
    ensures
        path_before(scan_root(tree, query)[i].path, scan_root(tree, query)[j].path),
{
    lemma_checkouts_in_order(tree, tree.name@, Seq::empty(), tree.children@.len(), query, i, j);
}

/// Two directories look the same to a scan: they hold directories of the
/// same names, and unless they are checkouts, those look the same in turn.
pub open spec fn alike_down_to_checkouts(a: DirTree, b: DirTree) -> bool
    decreases a,
{
    &&& a.child_names() == b.child_names()
    &&& !a.is_checkout_root() ==> forall|i: int|
        0 <= i < a.children@.len() ==> alike_down_to_checkouts(
            #[trigger] a.children@[i],
            b.children@[i],
        )
}

/// What lies inside a checkout is nothing to a scan: two snapshots that
/// differ only there give the same checkouts.
pub proof fn law_checkouts_are_not_entered(
    a: DirTree,
    b: DirTree,
    root: Seq<char>,
    at: Seq<Seq<char>>,
    upto: nat,
    query: QueryView,
)
    requires
        alike_down_to_checkouts(a, b),
    ensures
        checkouts(a, root, at, upto, query) == checkouts(b, root, at, upto, query),
    decreases a, upto,
{
    assert(a.children@.len() == b.children@.len()) by {
        assert(a.child_names().len() == b.child_names().len());
    }
    if !a.is_checkout_root() && 0 < upto <= a.children@.len() {
        let one = a.children@[upto - 1];
        let other = b.children@[upto - 1];
        assert(one.name@ == other.name@) by {
            assert(a.child_names()[upto - 1] == b.child_names()[upto - 1]);
        }
        assert(alike_down_to_checkouts(one, other));
        assert(one.children@.len() == other.children@.len()) by {
            assert(one.child_names().len() == other.child_names().len());
        }
        law_checkouts_are_not_entered(a, b, root, at, (upto - 1) as nat, query);
        law_checkouts_are_not_entered(
            one,
            other,
            root,
            at.push(one.name@),
            one.children@.len(),
            query,
        );
    }
}

/// What a scan of `tree` reports under a query is what it reports under no
/// query, without the checkouts whose last segment the query does not
/// accept.
pub proof fn lemma_checkouts_filtered(
    tree: DirTree,
    root: Seq<char>,
    at: Seq<Seq<char>>,
    upto: nat,
    query: QueryView,
)
    ensures
        checkouts(tree, root, at, upto, query) == accepted(
            checkouts(tree, root, at, upto, QueryView::Any),
            query,
        ),
    decreases tree, upto,
{
    let keep = |r: LocalRepositoryView| query.accepts(r.path.last());
    let nothing = Seq::<LocalRepositoryView>::empty();
    if tree.is_checkout_root() {
        if at.len() >= 2 {
            let repo = LocalRepositoryView { root: root, path: at };
            nothing.lemma_filter_push(repo, keep);
            assert(nothing.push(repo) == seq![repo]);
            assert(nothing.filter(keep) == nothing);
        } else {
            assert(nothing.filter(keep) == nothing);
        }
    } else if upto == 0 || upto > tree.children@.len() {
        assert(nothing.filter(keep) == nothing);
    } else {
        let child = tree.children@[upto - 1];
        lemma_checkouts_filtered(tree, root, at, (upto - 1) as nat, query);
        lemma_checkouts_filtered(child, root, at.push(child.name@), child.children@.len(), query);
        Seq::filter_distributes_over_add(
            checkouts(tree, root, at, (upto - 1) as nat, QueryView::Any),
            checkouts(child, root, at.push(child.name@), child.children@.len(), QueryView::Any),
            keep,
        );
    }
}

/// A listing with a query returns exactly the checkouts, in their order,
/// whose last segment the query accepts: for an exact query those whose
/// last segment is the text, letter for letter, and else those whose last
/// segment holds the text.
pub proof fn law_query_filters(trees: Seq<DirTree>, query: QueryView)
    ensures
        scan_of(trees, query) == accepted(scan_of(trees, QueryView::Any), query),
    decreases trees.len(),
{
    let keep = |r: LocalRepositoryView| query.accepts(r.path.last());
    if trees.len() == 0 {
        assert(Seq::<LocalRepositoryView>::empty().filter(keep) == Seq::<
            LocalRepositoryView,
        >::empty());
    } else {
        let tree = trees.last();
        law_query_filters(trees.drop_last(), query);
        lemma_checkouts_filtered(tree, tree.name@, Seq::empty(), tree.children@.len(), query);
        Seq::filter_distributes_over_add(
            scan_of(trees.drop_last(), QueryView::Any),
            scan_root(tree, QueryView::Any),
            keep,
        );
    }
}

} // verus!
