use ghqrs::address::UrlParts;
use ghqrs::repository::{parse_shorthand, parse_url_parts, resolve_token};
use ghqrs::{parse_token, Repository, SpecifierError};

fn identity(protocol: &str, host: &str, owner: &str, name: &str) -> Repository {
    Repository {
        protocol: protocol.to_owned(),
        host: host.to_owned(),
        owner: owner.to_owned(),
        name: name.to_owned(),
    }
}

fn tuple(r: Repository) -> (String, String, String, String) {
    (r.protocol, r.host, r.owner, r.name)
}

#[test]
fn user_project() {
    let input = "hoge/fuga";
    let output = tuple(parse_token(input, None, "/home/me", "/ws").unwrap());
    assert_eq!(
        output,
        ("https".to_owned(), "github.com".to_owned(), "hoge".to_owned(), "fuga".to_owned())
    );
}

#[test]
fn domain_user_project() {
    let input = "github.com/hoge/fuga";
    let output = tuple(parse_token(input, None, "/home/me", "/ws").unwrap());
    assert_eq!(
        output,
        ("https".to_owned(), "github.com".to_owned(), "hoge".to_owned(), "fuga".to_owned())
    );
}

#[test]
fn only_project_name() {
    let input = "fuga";
    let output = tuple(parse_token(input, None, "/home/me", "/ws").unwrap());
    assert_eq!(
        output,
        ("https".to_owned(), "github.com".to_owned(), "fuga".to_owned(), "fuga".to_owned())
    );
}

#[test]
fn repository_url() {
    let input = "https://gitlab.com/funga-/pecopeco.git";
    let output = tuple(parse_token(input, None, "/home/me", "/ws").unwrap());
    assert_eq!(
        output,
        (
            "https".to_owned(),
            "gitlab.com".to_owned(),
            "funga-".to_owned(),
            "pecopeco".to_owned()
        )
    );
}

#[test]
fn relative_path_1() {
    let root = "/tmp/test1";
    let wd = "/tmp/test1/github.com/hoge";
    let input = "./fuga";
    let output = tuple(parse_token(input, Some(root), wd, "/ws").unwrap());
    assert_eq!(
        output,
        ("https".to_owned(), "github.com".to_owned(), "hoge".to_owned(), "fuga".to_owned())
    );
}

#[test]
fn relative_path_2() {
    let root = "/tmp/test2";
    let wd = "/tmp/test2/github.com/hoge/fuga";
    let input = "../fuga";
    let output = tuple(parse_token(input, Some(root), wd, "/ws").unwrap());
    assert_eq!(
        output,
        ("https".to_owned(), "github.com".to_owned(), "hoge".to_owned(), "fuga".to_owned())
    );
}

#[test]
fn relative_path_resolves_like_the_short_token() {
    let by_path = parse_token("./fuga", Some("/r"), "/r/github.com/hoge", "/ws");
    let by_parent = parse_token("../fuga", Some("/r"), "/r/github.com/hoge/fuga", "/ws");
    let by_token = parse_token("hoge/fuga", None, "/anywhere", "/ws");
    assert_eq!(by_path, by_token);
    assert_eq!(by_parent, by_token);
}

#[test]
fn relative_path_falls_back_to_the_first_root() {
    let output = parse_token("./fuga", None, "/ws/example.org/hoge", "/ws");
    assert_eq!(output, Ok(identity("https", "example.org", "hoge", "fuga")));
}

#[test]
fn relative_path_directly_below_the_host_reads_as_two_segments() {
    let output = parse_token("./fuga", Some("/r"), "/r/github.com", "/ws");
    assert_eq!(output, Ok(identity("https", "github.com", "github.com", "fuga")));
}

#[test]
fn relative_path_with_a_root_that_ends_in_a_separator() {
    let output = parse_token("./fuga", Some("/r/"), "/r/github.com/hoge", "/ws");
    assert_eq!(output, Ok(identity("https", "github.com", "hoge", "fuga")));
}

#[test]
fn relative_path_outside_the_root_is_refused() {
    let output = parse_token("./fuga", Some("/r"), "/elsewhere/github.com/hoge", "/ws");
    assert_eq!(output, Err(SpecifierError::OutsideRoot));
    let sibling = parse_token("./fuga", Some("/r"), "/rr/github.com/hoge", "/ws");
    assert_eq!(sibling, Err(SpecifierError::OutsideRoot));
}

#[test]
fn a_lone_path_marker_is_a_relative_path() {
    let here = parse_token(".", Some("/r"), "/r/github.com/hoge/fuga", "/ws");
    assert_eq!(here, Ok(identity("https", "github.com", "hoge", "fuga")));
    let up = parse_token("..", Some("/r"), "/r/github.com/hoge/fuga/src", "/ws");
    assert_eq!(up, Ok(identity("https", "github.com", "hoge", "fuga")));
}

#[test]
fn empty_input_is_refused() {
    assert_eq!(parse_token("", None, "/home/me", "/ws"), Err(SpecifierError::EmptyInput));
    assert_eq!(parse_shorthand(""), Err(SpecifierError::EmptyInput));
    assert_eq!(Repository::from_remote(""), Err(SpecifierError::EmptyInput));
}

#[test]
fn url_with_too_few_segments_is_refused() {
    assert_eq!(
        parse_token("https://github.com/hoge", None, "/home/me", "/ws"),
        Err(SpecifierError::MissingPathSegments)
    );
    assert_eq!(
        parse_token("https://github.com", None, "/home/me", "/ws"),
        Err(SpecifierError::MissingPathSegments)
    );
}

#[test]
fn empty_components_are_refused() {
    assert_eq!(parse_shorthand("a//b"), Err(SpecifierError::InvalidIdentity));
    assert_eq!(parse_shorthand("/b"), Err(SpecifierError::InvalidIdentity));
    assert_eq!(parse_shorthand("a/"), Err(SpecifierError::InvalidIdentity));
    assert_eq!(parse_shorthand("/a/b"), Err(SpecifierError::InvalidIdentity));
    assert_eq!(parse_shorthand(".git"), Err(SpecifierError::InvalidIdentity));
    assert_eq!(
        parse_token("https://github.com/hoge/", None, "/home/me", "/ws"),
        Err(SpecifierError::InvalidIdentity)
    );
    assert_eq!(
        parse_token("https://github.com//fuga", None, "/home/me", "/ws"),
        Err(SpecifierError::InvalidIdentity)
    );
}

#[test]
fn url_scheme_is_kept() {
    let output = parse_token("ssh://git@example.org/hoge/fuga.git", None, "/home/me", "/ws");
    assert_eq!(output, Ok(identity("ssh", "example.org", "hoge", "fuga")));
    let plain = parse_token("http://example.org/hoge/fuga", None, "/home/me", "/ws");
    assert_eq!(plain, Ok(identity("http", "example.org", "hoge", "fuga")));
}

#[test]
fn url_segments_after_the_name_are_dropped() {
    let output = parse_token("https://github.com/hoge/fuga/tree/main", None, "/home/me", "/ws");
    assert_eq!(output, Ok(identity("https", "github.com", "hoge", "fuga")));
}

#[test]
fn url_with_and_without_suffix_agree() {
    let with = parse_token("https://gitlab.com/funga-/pecopeco.git", None, "/w", "/ws").unwrap();
    let without = parse_token("https://gitlab.com/funga-/pecopeco", None, "/w", "/ws").unwrap();
    assert_eq!(with, without);
    let short_with = parse_token("https://gitlab.com/funga-.git", None, "/w", "/ws");
    let short_without = parse_token("https://gitlab.com/funga-", None, "/w", "/ws");
    assert_eq!(short_with, Err(SpecifierError::MissingPathSegments));
    assert_eq!(short_without, Err(SpecifierError::MissingPathSegments));
}

#[test]
fn every_repetition_of_the_suffix_is_taken_off() {
    let output = parse_token("https://example.org/hoge/fuga.git.git", None, "/w", "/ws");
    assert_eq!(output, Ok(identity("https", "example.org", "hoge", "fuga")));
    assert_eq!(
        parse_shorthand("example.org/hoge/fuga.git"),
        Ok(identity("https", "example.org", "hoge", "fuga"))
    );
    assert_eq!(parse_shorthand("hoge/fuga.git"), Ok(identity("https", "github.com", "hoge", "fuga")));
    assert_eq!(parse_shorthand("fuga.git"), Ok(identity("https", "github.com", "fuga", "fuga")));
}

#[test]
fn deep_token_keeps_the_whole_remainder_as_name() {
    let output = parse_token("github.com/hoge/fuga/foo/a/b/c", None, "/w", "/ws").unwrap();
    assert_eq!(output, identity("https", "github.com", "hoge", "fuga/foo/a/b/c"));
    assert_eq!(output.clone_url(), "https://github.com/hoge/fuga.git");
    assert_eq!(output.path(), "hoge/fuga/foo/a/b/c");
    assert_eq!(output.shorthand(), "github.com/hoge/fuga/foo/a/b/c");
    let suffixed = parse_shorthand("github.com/hoge/fuga/foo.git").unwrap();
    assert_eq!(suffixed, identity("https", "github.com", "hoge", "fuga/foo"));
}

#[test]
fn reparsing_the_short_form_gives_the_same_identity() {
    for input in ["fuga", "hoge/fuga", "example.org/hoge/fuga", "example.org/hoge/fuga/deep/er"] {
        let first = parse_token(input, None, "/w", "/ws").unwrap();
        let again = parse_token(&first.shorthand(), None, "/w", "/ws").unwrap();
        assert_eq!(first, again);
    }
}

#[test]
fn url_parts_without_a_host_fall_through_to_the_token() {
    let parts = Some(UrlParts {
        scheme: "mailto".to_owned(),
        host: None,
        path: "hoge".to_owned(),
    });
    let output = resolve_token("hoge/fuga", &parts, "/ws", "/w");
    assert_eq!(output, Ok(identity("https", "github.com", "hoge", "fuga")));
    assert_eq!(parse_url_parts(parts.as_ref().unwrap()), Err(SpecifierError::InvalidIdentity));
}

#[test]
fn url_parts_come_before_everything_else() {
    let parts = Some(UrlParts {
        scheme: "git".to_owned(),
        host: Some("example.org".to_owned()),
        path: "/hoge/fuga.git".to_owned(),
    });
    let output = resolve_token("./anything", &parts, "/ws", "/w");
    assert_eq!(output, Ok(identity("git", "example.org", "hoge", "fuga")));
    let no_slash = UrlParts {
        scheme: "git".to_owned(),
        host: Some("example.org".to_owned()),
        path: "hoge/fuga".to_owned(),
    };
    assert_eq!(parse_url_parts(&no_slash), Err(SpecifierError::MissingPathSegments));
    let bad_host = UrlParts {
        scheme: "git".to_owned(),
        host: Some("exa/mple".to_owned()),
        path: "/hoge/fuga".to_owned(),
    };
    assert_eq!(parse_url_parts(&bad_host), Err(SpecifierError::InvalidIdentity));
}
