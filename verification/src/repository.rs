//! The identity of a repository, and the ways of writing one down: an
//! absolute URL, a short `host/owner/name` token, or a path relative to the
//! working directory.

use crate::address::{
    is_absolute, parse_url, path_segments, segments_of, url_parts, UrlParts, UrlPartsView,
};
use crate::path::{below, join_path, joined, parent, parent_of, strip_root};
use crate::text::{
    ends_with, has_char, has_suffix, join, join_strs, lemma_join_ends_with_last, lemma_join_split,
    lemma_pieces_plain, lemma_separator, lemma_split_append, lemma_split_concat,
    lemma_split_join, lemma_split_len, lemma_split_plain, lemma_trim_suffix_appended,
    lemma_trim_suffix_done, lemma_trim_suffix_prefix, same, split, split_str, starts_with,
    trim_suffix, views, without_suffix, SEPARATOR,
};
use crate::vcs::{plan_fetch, FetchAction};
use vstd::prelude::*;
use vstd::string::StringExecFns;

verus! {

/// Why a specifier names no repository.
#[derive(Debug, Clone, Copy, PartialEq, Eq, Structural)]
pub enum SpecifierError {
    /// The specifier is empty.
    EmptyInput,
    /// The path has too few segments to hold an owner and a name.
    MissingPathSegments,
    /// A relative specifier leads to a path that is not under the root.
    OutsideRoot,
    /// The host, owner or name would be empty, the host or owner would hold
    /// a separator, or the URL names no host.
    InvalidIdentity,
}

/// A repository as `protocol://host/owner/name`.
#[derive(Debug, Clone, PartialEq, Eq)]
pub struct Repository {
    /// The scheme to fetch with.
    pub protocol: String,
    /// The hosting site.
    pub host: String,
    /// The account that the repository lives under.
    pub owner: String,
    /// The repository, without an archive suffix. It holds further
    /// segments where the token went deeper than `host/owner/name`.
    pub name: String,
}

/// A [`Repository`] as sequences of characters.
pub struct RepositoryView {
    pub protocol: Seq<char>,
    pub host: Seq<char>,
    pub owner: Seq<char>,
    pub name: Seq<char>,
}

impl View for Repository {
    type V = RepositoryView;

    open spec fn view(&self) -> RepositoryView {
        RepositoryView {
            protocol: self.protocol@,
            host: self.host@,
            owner: self.owner@,
            name: self.name@,
        }
    }
}

/// A valid identity: host, owner and name are not empty, host and owner are
/// single segments, and the name carries no archive suffix.
pub open spec fn well_formed(r: RepositoryView) -> bool {
    &&& r.host.len() > 0
    &&& !r.host.contains(SEPARATOR)
    &&& r.owner.len() > 0
    &&& !r.owner.contains(SEPARATOR)
    &&& r.name.len() > 0
    &&& !ends_with(r.name, ".git"@)
}

/// `r` where it is a valid identity.
pub open spec fn checked(r: RepositoryView) -> Result<RepositoryView, SpecifierError> {
    if well_formed(r) {
        Ok(r)
    } else {
        Err(SpecifierError::InvalidIdentity)
    }
}

/// The name that the segments after host and owner give: the segments
/// joined again, the last one without its archive suffix.
pub open spec fn deep_name(rest: Seq<Seq<char>>) -> Seq<char> {
    join(rest.drop_last().push(trim_suffix(rest.last(), ".git"@)), "/"@)
}

/// The identity that a short token stands for. One segment is owner and
/// name at once, two are owner and name, both on `github.com`; with three or
/// more the first is the host, the second the owner and the rest the name.
/// The name never keeps an archive suffix.
pub open spec fn shorthand_identity(input: Seq<char>) -> Result<RepositoryView, SpecifierError> {
    let segments = split(input, SEPARATOR);
    if input.len() == 0 {
        Err(SpecifierError::EmptyInput)
    } else if segments.len() == 1 {
        checked(
            RepositoryView {
                protocol: "https"@,
                host: "github.com"@,
                owner: trim_suffix(input, ".git"@),
                name: trim_suffix(input, ".git"@),
            },
        )
    } else if segments.len() == 2 {
        checked(
            RepositoryView {
                protocol: "https"@,
                host: "github.com"@,
                owner: segments[0],
                name: trim_suffix(segments[1], ".git"@),
            },
        )
    } else {
        checked(
            RepositoryView {
                protocol: "https"@,
                host: segments[0],
                owner: segments[1],
                name: deep_name(segments.skip(2)),
            },
        )
    }
}

/// The identity of a checkout at `path` below a workspace root: the path
/// read as `host/owner/name`, which takes three segments at least.
pub open spec fn local_identity(path: Seq<char>) -> Result<RepositoryView, SpecifierError> {
    if path.len() == 0 {
        Err(SpecifierError::EmptyInput)
    } else if split(path, SEPARATOR).len() < 3 {
        Err(SpecifierError::MissingPathSegments)
    } else {
        shorthand_identity(path)
    }
}

/// The identity that an absolute URL names: its scheme and host, the first
/// segment of its path as owner and the second, without its archive suffix,
/// as name.
pub open spec fn url_identity(url: UrlPartsView) -> Result<RepositoryView, SpecifierError> {
    let segments = path_segments(url.path);
    match url.host {
        None => Err(SpecifierError::InvalidIdentity),
        Some(host) => if segments.len() < 2 {
            Err(SpecifierError::MissingPathSegments)
        } else {
            checked(
                RepositoryView {
                    protocol: url.scheme,
                    host: host,
                    owner: segments[0],
                    name: trim_suffix(segments[1], ".git"@),
                },
            )
        },
    }
}

/// The identity of a remote given as a URL or as a short token; `url` is
/// what the URL parser made of `input`.
pub open spec fn remote_identity(input: Seq<char>, url: Option<UrlPartsView>) -> Result<
    RepositoryView,
    SpecifierError,
> {
    if is_absolute(url) {
        url_identity(url->0)
    } else {
        shorthand_identity(input)
    }
}

/// The specifier begins with the segment `.` or `..`.
pub open spec fn is_relative(input: Seq<char>) -> bool {
    split(input, SEPARATOR)[0] == "."@ || split(input, SEPARATOR)[0] == ".."@
}

/// The path that a relative specifier leads to from the working directory
/// `cwd`: `..` goes one level up first, and the segments after the first
/// are appended.
pub open spec fn target_path(input: Seq<char>, cwd: Seq<char>) -> Seq<char> {
    let segments = split(input, SEPARATOR);
    let base = if segments[0] == ".."@ {
        parent_of(cwd)
    } else {
        cwd
    };
    joined(base, join(segments.skip(1), "/"@))
}

/// The identity that a specifier stands for. An absolute URL comes first;
/// then a relative path, which is resolved against `cwd`, taken relative to
/// `root` and read as a short token; then the short token.
pub open spec fn token_identity(
    input: Seq<char>,
    url: Option<UrlPartsView>,
    root: Seq<char>,
    cwd: Seq<char>,
) -> Result<RepositoryView, SpecifierError> {
    if is_absolute(url) {
        url_identity(url->0)
    } else if is_relative(input) {
        match below(target_path(input, cwd), root) {
            Some(rest) => shorthand_identity(rest),
            None => Err(SpecifierError::OutsideRoot),
        }
    } else {
        shorthand_identity(input)
    }
}

/// The root that a relative specifier is read against: the one given, or
/// else the first workspace root.
pub open spec fn chosen_root(root: Option<&str>, default_root: &str) -> Seq<char> {
    match root {
        Some(r) => r@,
        None => default_root@,
    }
}

/// The repository below its host: `owner/name`.
pub open spec fn identity_path(r: RepositoryView) -> Seq<char> {
    r.owner + "/"@ + r.name
}

/// The identity as a short token: `host/owner/name`.
pub open spec fn short_form(r: RepositoryView) -> Seq<char> {
    r.host + "/"@ + r.owner + "/"@ + r.name
}

/// The URL to fetch from: `protocol://host/owner/name.git`, with no more
/// of the name than its first segment.
pub open spec fn fetch_url(r: RepositoryView) -> Seq<char> {
    r.protocol + "://"@ + r.host + "/"@ + r.owner + "/"@ + split(r.name, SEPARATOR)[0] + ".git"@
}

/// Where the checkout lives under `root`: `root/host/owner/name`.
pub open spec fn checkout_path(r: RepositoryView, root: Seq<char>) -> Seq<char> {
    joined(root, short_form(r))
}

/// Two parse results name the same host, owner and name, or fail alike.
pub open spec fn same_identity(
    a: Result<RepositoryView, SpecifierError>,
    b: Result<RepositoryView, SpecifierError>,
) -> bool {
    match (a, b) {
        (Ok(x), Ok(y)) => x.host == y.host && x.owner == y.owner && x.name == y.name,
        (Err(e), Err(f)) => e == f,
        _ => false,
    }
}

/// The view of a parse result.
pub open spec fn result_view(r: Result<Repository, SpecifierError>) -> Result<
    RepositoryView,
    SpecifierError,
> {
    match r {
        Ok(repo) => Ok(repo@),
        Err(e) => Err(e),
    }
}

/// Hands `repo` back where it is a valid identity.
pub fn validate(repo: Repository) -> (r: Result<Repository, SpecifierError>)
    ensures
        result_view(r) == checked(repo@),
{
    if repo.host.as_str().is_empty() || has_char(repo.host.as_str(), SEPARATOR)
        || repo.owner.as_str().is_empty() || has_char(repo.owner.as_str(), SEPARATOR)
        || repo.name.as_str().is_empty() || has_suffix(repo.name.as_str(), ".git") {
        Err(SpecifierError::InvalidIdentity)
    } else {
        Ok(repo)
    }
}

/// The name that the segments from the third on give.
fn name_below_owner(segments: &Vec<String>) -> (name: String)
    requires
        segments.len() >= 3,
    ensures
        name@ == deep_name(views(segments@).skip(2)),
{
    let last: usize = segments.len() - 1;
    let mut rest: Vec<String> = Vec::new();
    let mut i: usize = 2;
    while i < last
        invariant
            last == segments.len() - 1,
            2 <= i <= last,
            views(rest@) == views(segments@).subrange(2, i as int),
        decreases last - i,
    {
        let piece = segments[i].clone();
        proof {
            assert(views(rest@.push(piece)) == views(rest@).push(piece@));
            assert(views(segments@).subrange(2, i + 1) == views(segments@).subrange(
                2,
                i as int,
            ).push(segments@[i as int]@));
        }
        rest.push(piece);
        i = i + 1;
    }
    rest.push(without_suffix(segments[last].as_str(), ".git"));
    proof {
        let tail = views(segments@).skip(2);
        assert(tail.last() == segments@[last as int]@);
        assert(views(rest@) == tail.drop_last().push(trim_suffix(tail.last(), ".git"@)));
    }
    join_strs(&rest, "/")
}

/// Reads `input` as a short token.
pub fn parse_shorthand(input: &str) -> (r: Result<Repository, SpecifierError>)
    ensures
        result_view(r) == shorthand_identity(input@),
        r matches Ok(repo) ==> well_formed(repo@),
{
    if input.is_empty() {
        return Err(SpecifierError::EmptyInput);
    }
    let segments = split_str(input, SEPARATOR);
    proof {
        lemma_split_len(input@, SEPARATOR);
    }
    if segments.len() == 1 {
        validate(
            Repository {
                protocol: "https".to_owned(),
                host: "github.com".to_owned(),
                owner: without_suffix(input, ".git"),
                name: without_suffix(input, ".git"),
            },
        )
    } else if segments.len() == 2 {
        validate(
            Repository {
                protocol: "https".to_owned(),
                host: "github.com".to_owned(),
                owner: segments[0].clone(),
                name: without_suffix(segments[1].as_str(), ".git"),
            },
        )
    } else {
        validate(
            Repository {
                protocol: "https".to_owned(),
                host: segments[0].clone(),
                owner: segments[1].clone(),
                name: name_below_owner(&segments),
            },
        )
    }
}

/// Reads the identity off the parts of an absolute URL.
pub fn parse_url_parts(url: &UrlParts) -> (r: Result<Repository, SpecifierError>)
    ensures
        result_view(r) == url_identity(url@),
        r matches Ok(repo) ==> well_formed(repo@),
{
    let segments = segments_of(url.path.as_str());
    match &url.host {
        None => Err(SpecifierError::InvalidIdentity),
        Some(host) => {
            if segments.len() < 2 {
                Err(SpecifierError::MissingPathSegments)
            } else {
                validate(
                    Repository {
                        protocol: url.scheme.clone(),
                        host: host.clone(),
                        owner: segments[0].clone(),
                        name: without_suffix(segments[1].as_str(), ".git"),
                    },
                )
            }
        },
    }
}

/// Whether `input` begins with the segment `.` or `..`.
pub fn begins_relative(input: &str) -> (relative: bool)
    ensures
        relative == is_relative(input@),
{
    let segments = split_str(input, SEPARATOR);
    proof {
        lemma_split_len(input@, SEPARATOR);
    }
    same(segments[0].as_str(), ".") || same(segments[0].as_str(), "..")
}

/// The path that the relative specifier `input` leads to from `cwd`.
pub fn relative_target(input: &str, cwd: &str) -> (target: String)
    ensures
        target@ == target_path(input@, cwd@),
{
    let mut segments = split_str(input, SEPARATOR);
    proof {
        lemma_split_len(input@, SEPARATOR);
    }
    let ghost all = segments@;
    let first = segments.remove(0);
    proof {
        assert(views(segments@) == views(all).skip(1));
    }
    let rest = join_strs(&segments, "/");
    if same(first.as_str(), "..") {
        let base = parent(cwd);
        join_path(base.as_str(), rest.as_str())
    } else {
        join_path(cwd, rest.as_str())
    }
}

/// Resolves `project`, of which the URL parser made `url`, with relative
/// paths read from `cwd` against `root`.
pub fn resolve_token(project: &str, url: &Option<UrlParts>, root: &str, cwd: &str) -> (r: Result<
    Repository,
    SpecifierError,
>)
    ensures
        result_view(r) == token_identity(
            project@,
            crate::address::parts_view(*url),
            root@,
            cwd@,
        ),
        r matches Ok(repo) ==> well_formed(repo@),
{
    match url {
        Some(parts) => {
            if parts.host.is_some() {
                return parse_url_parts(parts);
            }
        },
        None => {},
    }
    if begins_relative(project) {
        let target = relative_target(project, cwd);
        match strip_root(target.as_str(), root) {
            Some(rest) => parse_shorthand(rest.as_str()),
            None => Err(SpecifierError::OutsideRoot),
        }
    } else {
        parse_shorthand(project)
    }
}

/// Resolves the specifier `project` to an identity. A relative path is read
/// from the working directory `cwd` against `root` or, where none is given,
/// against `default_root`, the first workspace root. Paths are taken as
/// text: nothing is looked up in a file system.
pub fn parse_token(project: &str, root: Option<&str>, cwd: &str, default_root: &str) -> (r: Result<
    Repository,
    SpecifierError,
>)
    ensures
        result_view(r) == token_identity(
            project@,
            url_parts(project@),
            chosen_root(root, default_root),
            cwd@,
        ),
        !project@.contains(':') ==> result_view(r) == token_identity(
            project@,
            None,
            chosen_root(root, default_root),
            cwd@,
        ),
        r matches Ok(repo) ==> well_formed(repo@),
{
    let url = parse_url(project);
    let against = match root {
        Some(given) => given,
        None => default_root,
    };
    resolve_token(project, &url, against, cwd)
}

impl Repository {
    /// The repository that `s` names, as a URL or as a short token.
    pub fn from_remote(s: &str) -> (r: Result<Repository, SpecifierError>)
        ensures
            result_view(r) == remote_identity(s@, url_parts(s@)),
            !s@.contains(':') ==> result_view(r) == shorthand_identity(s@),
            r matches Ok(repo) ==> well_formed(repo@),
    {
        let url = parse_url(s);
        Repository::from_remote_parts(s, &url)
    }

    /// The repository that `s` names, where the URL parser made `url` of
    /// `s`.
    pub fn from_remote_parts(s: &str, url: &Option<UrlParts>) -> (r: Result<
        Repository,
        SpecifierError,
    >)
        ensures
            result_view(r) == remote_identity(s@, crate::address::parts_view(*url)),
            r matches Ok(repo) ==> well_formed(repo@),
    {
        match url {
            Some(parts) => {
                if parts.host.is_some() {
                    return parse_url_parts(parts);
                }
            },
            None => {},
        }
        parse_shorthand(s)
    }

    /// The repository whose checkout lies at `path` below a workspace
    /// root.
    pub fn from_local(path: &str) -> (r: Result<Repository, SpecifierError>)
        ensures
            result_view(r) == local_identity(path@),
            r matches Ok(repo) ==> well_formed(repo@),
    {
        if path.is_empty() {
            return Err(SpecifierError::EmptyInput);
        }
        let segments = split_str(path, SEPARATOR);
        if segments.len() < 3 {
            return Err(SpecifierError::MissingPathSegments);
        }
        parse_shorthand(path)
    }

    /// The repository below its host: `owner/name`.
    pub fn path(&self) -> (p: String)
        ensures
            p@ == identity_path(self@),
    {
        let mut p = self.owner.clone();
        p.append("/");
        p.append(self.name.as_str());
        p
    }

    /// The identity as a short token: `host/owner/name`.
    pub fn shorthand(&self) -> (token: String)
        ensures
            token@ == short_form(self@),
    {
        let mut token = self.host.clone();
        token.append("/");
        token.append(self.owner.as_str());
        token.append("/");
        token.append(self.name.as_str());
        token
    }

    /// The URL to fetch from.
    pub fn clone_url(&self) -> (url: String)
        ensures
            url@ == fetch_url(self@),
    {
        let pieces = split_str(self.name.as_str(), SEPARATOR);
        proof {
            lemma_split_len(self.name@, SEPARATOR);
        }
        let mut url = self.protocol.clone();
        url.append("://");
        url.append(self.host.as_str());
        url.append("/");
        url.append(self.owner.as_str());
        url.append("/");
        url.append(pieces[0].as_str());
        url.append(".git");
        url
    }

    /// Where the checkout lives under `root`.
    pub fn local_path(&self, root: &str) -> (dest: String)
        ensures
            dest@ == checkout_path(self@, root@),
    {
        let token = self.shorthand();
        join_path(root, token.as_str())
    }

    /// What to do to have an up-to-date checkout under `root`, where
    /// `exists` says whether the checkout is there already.
    pub fn fetch(&self, root: &str, exists: bool, skip_pull: bool, shallow: bool) -> (action:
        FetchAction)
        ensures
            match action {
                FetchAction::Clone { url, dest, shallow: depth } => !exists && url@ == fetch_url(
                    self@,
                ) && dest@ == checkout_path(self@, root@) && depth == shallow,
                FetchAction::Pull { dest } => exists && !skip_pull && dest@ == checkout_path(
                    self@,
                    root@,
                ),
                FetchAction::Skip { dest } => exists && skip_pull && dest@ == checkout_path(
                    self@,
                    root@,
                ),
            },
    {
        plan_fetch(self.clone_url(), self.local_path(root), exists, skip_pull, shallow)
    }

    /// What to do to have a checkout under `root`: a full clone where there
    /// is none, and nothing where there is one.
    pub fn clone_into(&self, root: &str, exists: bool) -> (action: FetchAction)
        ensures
            match action {
                FetchAction::Clone { url, dest, shallow } => !exists && url@ == fetch_url(self@)
                    && dest@ == checkout_path(self@, root@) && !shallow,
                FetchAction::Pull { dest } => false,
                FetchAction::Skip { dest } => exists && dest@ == checkout_path(self@, root@),
            },
    {
        self.fetch(root, exists, true, false)
    }
}

/// The default host is a single segment, and the archive suffix holds no
/// separator.
proof fn lemma_literals()
    ensures
        "github.com"@.len() > 0,
        !"github.com"@.contains(SEPARATOR),
        ".git"@.len() == 4,
        !".git"@.contains(SEPARATOR),
{
    reveal_strlit("github.com");
    reveal_strlit(".git");
}

/// A name put together from pieces never ends with the archive suffix.
proof fn lemma_deep_name_trimmed(rest: Seq<Seq<char>>)
    requires
        rest.len() >= 1,
    ensures
        !ends_with(deep_name(rest), ".git"@),
{
    lemma_literals();
    lemma_separator();
    reveal_strlit(".git");
    let last = trim_suffix(rest.last(), ".git"@);
    let pieces = rest.drop_last().push(last);
    let name = deep_name(rest);
    lemma_trim_suffix_done(rest.last(), ".git"@);
    if pieces.len() == 1 {
        assert(name == last);
    } else {
        assert(pieces.drop_last() == rest.drop_last());
        let front = join(rest.drop_last(), "/"@);
        assert(name == front + "/"@ + last);
        if ends_with(name, ".git"@) {
            let n: int = name.len() as int;
            let tail = name.subrange(n - 4, n);
            if last.len() >= 4 {
                assert(last.subrange(last.len() - 4, last.len() as int) == tail);
            } else {
                let at: int = n - last.len() - 1;
                assert(name[at] == SEPARATOR);
                assert(tail[at - (n - 4)] == SEPARATOR);
            }
        }
    }
}

/// A token of one segment names the repository of that name under the
/// owner of that name on `github.com`. This holds of every segment that is
/// not empty and carries no archive suffix. As a specifier of its own the
/// token names the same, unless it is a path marker or an absolute URL.
pub proof fn law_single_segment(
    s: Seq<char>,
    url: Option<UrlPartsView>,
    root: Seq<char>,
    cwd: Seq<char>,
)
    requires
        s.len() > 0,
        !s.contains(SEPARATOR),
        !ends_with(s, ".git"@),
    ensures
        shorthand_identity(s) == Ok::<RepositoryView, SpecifierError>(
            RepositoryView { protocol: "https"@, host: "github.com"@, owner: s, name: s },
        ),
        !is_absolute(url) && s != "."@ && s != ".."@ ==> token_identity(s, url, root, cwd)
            == shorthand_identity(s),
{
    lemma_literals();
    lemma_split_plain(s, SEPARATOR);
}

/// A token `owner/name` names that repository on `github.com`. This holds
/// where both segments are not empty and the second carries no archive
/// suffix. As a specifier of its own the token names the same, unless its
/// first segment is a path marker or it is an absolute URL.
pub proof fn law_two_segments(
    owner: Seq<char>,
    name: Seq<char>,
    url: Option<UrlPartsView>,
    root: Seq<char>,
    cwd: Seq<char>,
)
    requires
        owner.len() > 0,
        !owner.contains(SEPARATOR),
        name.len() > 0,
        !name.contains(SEPARATOR),
        !ends_with(name, ".git"@),
    ensures
        shorthand_identity(owner + "/"@ + name) == Ok::<RepositoryView, SpecifierError>(
            RepositoryView { protocol: "https"@, host: "github.com"@, owner: owner, name: name },
        ),
        !is_absolute(url) && owner != "."@ && owner != ".."@ ==> token_identity(
            owner + "/"@ + name,
            url,
            root,
            cwd,
        ) == shorthand_identity(owner + "/"@ + name),
{
    lemma_literals();
    lemma_separator();
    lemma_split_plain(owner, SEPARATOR);
    lemma_split_plain(name, SEPARATOR);
    lemma_split_concat(owner, name, SEPARATOR);
    assert(split(owner + "/"@ + name, SEPARATOR) == seq![owner, name]);
}

/// A token of three or more segments names the first as host and the
/// second as owner; the name is all the rest, joined as it was, with the
/// archive suffix taken off the last segment. The URL to fetch from goes no
/// deeper than the first segment of the name. Where the last segment has
/// no archive suffix, the identity's short form is the token itself. This
/// holds where host, owner and name are not empty. As a specifier of its
/// own the token names the same, unless its first segment is a path marker
/// or it is an absolute URL.
pub proof fn law_deep_token(
    input: Seq<char>,
    url: Option<UrlPartsView>,
    root: Seq<char>,
    cwd: Seq<char>,
)
    requires
        split(input, SEPARATOR).len() >= 3,
        split(input, SEPARATOR)[0].len() > 0,
        split(input, SEPARATOR)[1].len() > 0,
        deep_name(split(input, SEPARATOR).skip(2)).len() > 0,
    ensures
        !is_absolute(url) && !is_relative(input) ==> token_identity(input, url, root, cwd)
            == shorthand_identity(input),
        shorthand_identity(input) matches Ok(r) && {
            let segments = split(input, SEPARATOR);
            &&& r.protocol == "https"@
            &&& r.host == segments[0]
            &&& r.owner == segments[1]
            &&& r.name == deep_name(segments.skip(2))
            &&& fetch_url(r) == "https"@ + "://"@ + segments[0] + "/"@ + segments[1] + "/"@ + (if segments.len()
                == 3 {
                trim_suffix(segments[2], ".git"@)
            } else {
                segments[2]
            }) + ".git"@
            &&& !ends_with(segments.last(), ".git"@) ==> short_form(r) == input
        },
{
    lemma_literals();
    lemma_separator();
    let segments = split(input, SEPARATOR);
    let rest = segments.skip(2);
    let last = trim_suffix(rest.last(), ".git"@);
    let pieces = rest.drop_last().push(last);
    lemma_pieces_plain(input, SEPARATOR);
    lemma_deep_name_trimmed(rest);
    assert(input.len() > 0) by {
        if input.len() == 0 {
            assert(split(input, SEPARATOR).len() == 1);
        }
    }
    assert(!segments[0].contains(SEPARATOR));
    assert(!segments[1].contains(SEPARATOR));
    // The name splits into the pieces it was joined from.
    lemma_trim_suffix_prefix(rest.last(), ".git"@);
    assert forall|i: int| 0 <= i < pieces.len() implies !(#[trigger] pieces[i]).contains(
        SEPARATOR,
    ) by {
        if i < pieces.len() - 1 {
            assert(pieces[i] == segments[i + 2]);
        } else {
            assert(rest.last() == segments[segments.len() - 1]);
            if last.contains(SEPARATOR) {
                let k = choose|k: int| 0 <= k < last.len() && last[k] == SEPARATOR;
                assert(rest.last().subrange(0, last.len() as int)[k] == rest.last()[k]);
                assert(rest.last()[k] == SEPARATOR);
            }
        }
    }
    lemma_split_join(pieces, SEPARATOR);
    assert(pieces[0] == if segments.len() == 3 {
        trim_suffix(segments[2], ".git"@)
    } else {
        segments[2]
    });
    // The short form of an untouched token is the token.
    if !ends_with(segments.last(), ".git"@) {
        assert(pieces == rest);
        lemma_join_split(input, SEPARATOR);
        lemma_join_prefix(segments, 2);
        assert(segments.subrange(0, 2) == seq![segments[0], segments[1]]);
        let pair = seq![segments[0], segments[1]];
        assert(join(pair, "/"@) == segments[0] + "/"@ + segments[1]) by {
            assert(pair.drop_last() == seq![segments[0]]);
            assert(join(seq![segments[0]], "/"@) == segments[0]);
            assert(pair.last() == segments[1]);
        }
    }
}

/// A joined text is its first `k` pieces joined, a separator, and the
/// other pieces joined.
proof fn lemma_join_prefix(parts: Seq<Seq<char>>, k: int)
    requires
        0 < k < parts.len(),
    ensures
        join(parts, "/"@) == join(parts.subrange(0, k), "/"@) + "/"@ + join(parts.skip(k), "/"@),
    decreases parts.len(),
{
    let sep = "/"@;
    if parts.len() == k + 1 {
        assert(parts.drop_last() == parts.subrange(0, k));
        assert(parts.skip(k) == seq![parts.last()]);
    } else {
        let front = parts.drop_last();
        lemma_join_prefix(front, k);
        assert(front.subrange(0, k) == parts.subrange(0, k));
        assert(parts.skip(k).drop_last() == front.skip(k));
        assert(parts.skip(k).last() == parts.last());
        assert(join(parts, sep) == join(front, sep) + sep + parts.last());
        assert(join(parts.skip(k), sep) == join(front.skip(k), sep) + sep + parts.last());
        assert(join(parts.subrange(0, k), sep) + sep + (join(front.skip(k), sep) + sep
            + parts.last()) == (join(parts.subrange(0, k), sep) + sep + join(front.skip(k), sep))
            + sep + parts.last());
    }
}

/// Parsing is idempotent on what it yields: the short form of a valid
/// `https` identity parses to that identity again. As a specifier of its
/// own the short form does so too, where its host is no path marker and it
/// is no absolute URL.
pub proof fn law_reparse(
    r: RepositoryView,
    url: Option<UrlPartsView>,
    root: Seq<char>,
    cwd: Seq<char>,
)
    requires
        well_formed(r),
        r.protocol == "https"@,
    ensures
        shorthand_identity(short_form(r)) == Ok::<RepositoryView, SpecifierError>(r),
        !is_absolute(url) && r.host != "."@ && r.host != ".."@ ==> token_identity(
            short_form(r),
            url,
            root,
            cwd,
        ) == Ok::<RepositoryView, SpecifierError>(r),
{
    lemma_literals();
    lemma_separator();
    let input = short_form(r);
    let pieces = split(r.name, SEPARATOR);
    lemma_split_len(r.name, SEPARATOR);
    lemma_split_plain(r.host, SEPARATOR);
    lemma_split_plain(r.owner, SEPARATOR);
    lemma_split_concat(r.owner, r.name, SEPARATOR);
    lemma_split_concat(r.host, r.owner + "/"@ + r.name, SEPARATOR);
    assert(input == r.host + "/"@ + (r.owner + "/"@ + r.name));
    let segments = split(input, SEPARATOR);
    assert(segments == seq![r.host] + (seq![r.owner] + pieces));
    assert(segments.skip(2) == pieces);
    // The last piece of the name carries no suffix, since the name has none.
    lemma_join_split(r.name, SEPARATOR);
    lemma_join_ends_with_last(pieces, "/"@);
    if ends_with(pieces.last(), ".git"@) {
        let last = pieces.last();
        let n: int = r.name.len() as int;
        assert(r.name.subrange(n - 4, n) == r.name.subrange(n - last.len(), n).subrange(
            last.len() - 4,
            last.len() as int,
        ));
    }
    assert(pieces.drop_last().push(pieces.last()) == pieces);
}

/// Under a root, a relative path names what its place below the root
/// names as a short token. From the directory of an owner, `./name` is
/// `host/owner/name`; from the checkout itself, `../name` is the same. This
/// holds of every root and of all segments that are not empty, where the
/// relative path is no absolute URL.
pub proof fn law_relative_path(
    root: Seq<char>,
    host: Seq<char>,
    owner: Seq<char>,
    name: Seq<char>,
    url: Option<UrlPartsView>,
)
    requires
        host.len() > 0 && !host.contains(SEPARATOR),
        owner.len() > 0 && !owner.contains(SEPARATOR),
        name.len() > 0 && !name.contains(SEPARATOR),
        !is_absolute(url),
    ensures
        token_identity(
            "."@ + "/"@ + name,
            url,
            root,
            joined(root, host + "/"@ + owner),
        ) == shorthand_identity(host + "/"@ + owner + "/"@ + name),
        token_identity(
            ".."@ + "/"@ + name,
            url,
            root,
            joined(root, host + "/"@ + owner + "/"@ + name),
        ) == shorthand_identity(host + "/"@ + owner + "/"@ + name),
{
    lemma_separator();
    reveal_strlit(".");
    reveal_strlit("..");
    let prefix = crate::path::root_prefix(root);
    let above = host + "/"@ + owner;
    let token = above + "/"@ + name;
    let owner_dir = joined(root, above);
    let checkout = joined(root, token);
    assert(owner_dir == prefix + above);
    assert(checkout == prefix + token);
    assert(checkout == owner_dir + "/"@ + name);
    // The directory of the owner does not end with a separator.
    assert(!ends_with(owner_dir, "/"@)) by {
        if ends_with(owner_dir, "/"@) {
            let n: int = owner_dir.len() as int;
            assert(owner_dir.subrange(n - 1, n)[0] == SEPARATOR);
            assert(owner_dir[n - 1] == owner[owner.len() - 1]);
        }
    }
    lemma_split_plain(name, SEPARATOR);
    assert(join(seq![name], "/"@) == name);
    // Both paths lead to the checkout, which lies under the root.
    assert(joined(owner_dir, name) == checkout);
    assert(checkout.subrange(0, prefix.len() as int) == prefix);
    assert(checkout.skip(prefix.len() as int) == token);
    // `./name` from the directory of the owner.
    lemma_split_plain("."@, SEPARATOR);
    lemma_split_concat("."@, name, SEPARATOR);
    let here = split("."@ + "/"@ + name, SEPARATOR);
    assert(here == seq!["."@, name]);
    assert(here.skip(1) == seq![name]);
    // `../name` from the checkout.
    lemma_split_plain(".."@, SEPARATOR);
    lemma_split_concat(".."@, name, SEPARATOR);
    let up = split(".."@ + "/"@ + name, SEPARATOR);
    assert(up == seq![".."@, name]);
    assert(up.skip(1) == seq![name]);
    lemma_split_concat(owner_dir, name, SEPARATOR);
    lemma_split_len(owner_dir, SEPARATOR);
    lemma_join_split(owner_dir, SEPARATOR);
    assert(split(checkout, SEPARATOR).drop_last() == split(owner_dir, SEPARATOR));
    assert(parent_of(checkout) == owner_dir);
}

/// A URL that ends in the archive suffix and the same URL without it name
/// the same host, owner and name, or fail alike.
pub proof fn law_archive_suffix(plain: UrlPartsView, suffixed: UrlPartsView)
    requires
        suffixed.host == plain.host,
        suffixed.path == plain.path + ".git"@,
    ensures
        same_identity(url_identity(plain), url_identity(suffixed)),
{
    lemma_literals();
    lemma_separator();
    reveal_strlit(".git");
    if starts_with(plain.path, "/"@) {
        let body = plain.path.skip(1);
        assert(suffixed.path.subrange(0, 1) == plain.path.subrange(0, 1));
        assert(suffixed.path.skip(1) == body + ".git"@);
        lemma_split_append(body, ".git"@, SEPARATOR);
        lemma_split_len(body, SEPARATOR);
        let segments = split(body, SEPARATOR);
        if segments.len() == 2 {
            lemma_trim_suffix_appended(segments[1], ".git"@);
        }
    } else {
        if plain.path.len() > 0 {
            assert(suffixed.path.subrange(0, 1) == plain.path.subrange(0, 1));
        } else {
            assert(suffixed.path == ".git"@);
            assert(suffixed.path.subrange(0, 1)[0] == '.');
        }
    }
}

} // verus!
