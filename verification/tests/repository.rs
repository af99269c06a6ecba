use ghqrs::vcs::FetchAction;
use ghqrs::{Repository, SpecifierError};

fn remote(s: &str) -> Repository {
    Repository::from_remote(s).unwrap()
}

#[test]
fn from_remote_user_project() {
    let repo = remote("hoge/fuga");
    assert_eq!(repo.clone_url(), "https://github.com/hoge/fuga.git");
    assert_eq!(repo.host, "github.com");
    assert_eq!(repo.path(), "hoge/fuga");
}

#[test]
fn from_remote_domain_user_project() {
    let repo = remote("github.com/hoge/fuga");
    assert_eq!(repo.clone_url(), "https://github.com/hoge/fuga.git");
    assert_eq!(repo.host, "github.com");
    assert_eq!(repo.path(), "hoge/fuga");
}

#[test]
fn from_remote_only_project_name() {
    let repo = remote("fuga");
    assert_eq!(repo.clone_url(), "https://github.com/fuga/fuga.git");
    assert_eq!(repo.host, "github.com");
    assert_eq!(repo.path(), "fuga/fuga");
}

#[test]
fn from_remote_repository_url() {
    let repo = remote("https://gitlab.com/funga-/pecopeco.git");
    assert_eq!(repo.clone_url(), "https://gitlab.com/funga-/pecopeco.git");
    assert_eq!(repo.host, "gitlab.com");
    assert_eq!(repo.path(), "funga-/pecopeco");
}

#[test]
fn from_remote_long_path() {
    let repo = remote("github.com/hoge/fuga/foo/a/b/c");
    assert_eq!(repo.clone_url(), "https://github.com/hoge/fuga.git");
    assert_eq!(repo.host, "github.com");
    assert_eq!(repo.path(), "hoge/fuga/foo/a/b/c");
}

#[test]
fn from_remote_does_not_resolve_paths() {
    let repo = remote("./fuga");
    assert_eq!(repo.host, "github.com");
    assert_eq!(repo.owner, ".");
    assert_eq!(repo.name, "fuga");
}

#[test]
fn from_local_takes_three_segments() {
    let repo = Repository::from_local("github.com/hoge/fuga").unwrap();
    assert_eq!(repo.host, "github.com");
    assert_eq!(repo.path(), "hoge/fuga");
    let deep = Repository::from_local("github.com/hoge/fuga/foo").unwrap();
    assert_eq!(deep.path(), "hoge/fuga/foo");
    assert_eq!(Repository::from_local("hoge/fuga"), Err(SpecifierError::MissingPathSegments));
    assert_eq!(Repository::from_local("fuga"), Err(SpecifierError::MissingPathSegments));
    assert_eq!(Repository::from_local(""), Err(SpecifierError::EmptyInput));
    assert_eq!(Repository::from_local("a//b"), Err(SpecifierError::InvalidIdentity));
}

#[test]
fn local_path_lies_under_the_root() {
    let repo = remote("hoge/fuga");
    assert_eq!(repo.local_path("/ws"), "/ws/github.com/hoge/fuga");
    assert_eq!(repo.local_path("/ws/"), "/ws/github.com/hoge/fuga");
    assert_eq!(repo.local_path(""), "/github.com/hoge/fuga");
    let deep = remote("example.org/hoge/fuga/foo");
    assert_eq!(deep.local_path("/ws"), "/ws/example.org/hoge/fuga/foo");
}

#[test]
fn fetch_clones_what_is_not_there() {
    let repo = remote("hoge/fuga");
    assert_eq!(
        repo.fetch("/ws", false, false, true),
        FetchAction::Clone {
            url: "https://github.com/hoge/fuga.git".to_owned(),
            dest: "/ws/github.com/hoge/fuga".to_owned(),
            shallow: true,
        }
    );
    assert_eq!(
        repo.fetch("/ws", false, true, false),
        FetchAction::Clone {
            url: "https://github.com/hoge/fuga.git".to_owned(),
            dest: "/ws/github.com/hoge/fuga".to_owned(),
            shallow: false,
        }
    );
}

#[test]
fn fetch_pulls_what_is_there_unless_told_not_to() {
    let repo = remote("hoge/fuga");
    assert_eq!(
        repo.fetch("/ws", true, false, false),
        FetchAction::Pull { dest: "/ws/github.com/hoge/fuga".to_owned() }
    );
    assert_eq!(
        repo.fetch("/ws", true, true, false),
        FetchAction::Skip { dest: "/ws/github.com/hoge/fuga".to_owned() }
    );
}

#[test]
fn clone_into_never_pulls() {
    let repo = remote("hoge/fuga");
    assert_eq!(
        repo.clone_into("/ws", true),
        FetchAction::Skip { dest: "/ws/github.com/hoge/fuga".to_owned() }
    );
    assert_eq!(
        repo.clone_into("/ws", false),
        FetchAction::Clone {
            url: "https://github.com/hoge/fuga.git".to_owned(),
            dest: "/ws/github.com/hoge/fuga".to_owned(),
            shallow: false,
        }
    );
}
