use ghqrs::path::{join_path, parent, strip_root};
use ghqrs::roots::{resolve_roots, ConfigurationError};
use ghqrs::text::{
    has_char, has_prefix, has_substring, has_suffix, join_strs, same, split_str, to_chars,
    without_suffix,
};
use ghqrs::vcs::{
    config_value, detect_marker, git_arguments, git_config_arguments, is_vcs_root, plan_fetch,
    FetchAction, VcsMarker,
};
use ghqrs::vcs_info::util::{
    blank, communicate, get_lines, is_space, read_content, trim, ProcessError, SplitEOL,
};

fn strings(items: &[&str]) -> Vec<String> {
    items.iter().map(|s| s.to_string()).collect()
}

#[test]
fn split_keeps_empty_pieces() {
    assert_eq!(split_str("a/b/c", '/'), strings(&["a", "b", "c"]));
    assert_eq!(split_str("abc", '/'), strings(&["abc"]));
    assert_eq!(split_str("", '/'), strings(&[""]));
    assert_eq!(split_str("/", '/'), strings(&["", ""]));
    assert_eq!(split_str("/a//b/", '/'), strings(&["", "a", "", "b", ""]));
    assert_eq!(split_str("é/ü", '/'), strings(&["é", "ü"]));
}

#[test]
fn join_undoes_split() {
    for text in ["", "a", "a/b", "/a//b/", "///"] {
        assert_eq!(join_strs(&split_str(text, '/'), "/"), text);
    }
    assert_eq!(join_strs(&strings(&[]), "/"), "");
    assert_eq!(join_strs(&strings(&["a", "b"]), ", "), "a, b");
    assert_eq!(join_strs(&strings(&["", ""]), "/"), "/");
}

#[test]
fn text_predicates() {
    assert_eq!(to_chars("añ/"), vec!['a', 'ñ', '/']);
    assert!(same("abc", "abc"));
    assert!(!same("abc", "abd"));
    assert!(!same("abc", "ab"));
    assert!(same("", ""));
    assert!(has_prefix("abc", "ab"));
    assert!(has_prefix("abc", ""));
    assert!(!has_prefix("abc", "bc"));
    assert!(!has_prefix("a", "ab"));
    assert!(has_suffix("abc", "bc"));
    assert!(has_suffix("abc", ""));
    assert!(!has_suffix("abc", "ab"));
    assert!(!has_suffix("c", "bc"));
    assert!(has_substring("abcd", "bc"));
    assert!(has_substring("abcd", ""));
    assert!(has_substring("abcd", "abcd"));
    assert!(!has_substring("abcd", "abcde"));
    assert!(!has_substring("abcd", "ca"));
    assert!(has_char("a/b", '/'));
    assert!(!has_char("ab", '/'));
}

#[test]
fn suffix_is_trimmed_as_often_as_it_stands() {
    assert_eq!(without_suffix("fuga.git", ".git"), "fuga");
    assert_eq!(without_suffix("fuga.git.git", ".git"), "fuga");
    assert_eq!(without_suffix("fuga", ".git"), "fuga");
    assert_eq!(without_suffix(".git", ".git"), "");
    assert_eq!(without_suffix("fuga.gitx", ".git"), "fuga.gitx");
    assert_eq!(without_suffix("fuga", ""), "fuga");
    assert_eq!(without_suffix("git", ".git"), "git");
}

#[test]
fn parents_and_joins() {
    assert_eq!(parent("/a/b"), "/a");
    assert_eq!(parent("/a"), "/");
    assert_eq!(parent("/"), "/");
    assert_eq!(parent("a/b"), "a");
    assert_eq!(parent("a"), "");
    assert_eq!(parent(""), "");
    assert_eq!(join_path("/a", "b/c"), "/a/b/c");
    assert_eq!(join_path("/a/", "b"), "/a/b");
    assert_eq!(join_path("/a", ""), "/a");
    assert_eq!(join_path("", "b"), "/b");
    assert_eq!(join_path("/", "b"), "/b");
}

#[test]
fn paths_below_a_root() {
    assert_eq!(strip_root("/ws/a/b", "/ws"), Some("a/b".to_owned()));
    assert_eq!(strip_root("/ws/a/b", "/ws/"), Some("a/b".to_owned()));
    assert_eq!(strip_root("/ws/", "/ws"), Some(String::new()));
    assert_eq!(strip_root("/ws", "/ws"), None);
    assert_eq!(strip_root("/wsx/a", "/ws"), None);
    assert_eq!(strip_root("/other/a", "/ws"), None);
}

#[test]
fn roots_come_from_the_environment_first() {
    assert_eq!(
        resolve_roots(Some("/one:/two"), "/configured", Some("/home/me")),
        Ok(strings(&["/one", "/two"]))
    );
    assert_eq!(
        resolve_roots(Some("/only"), "", None),
        Ok(strings(&["/only"]))
    );
    assert_eq!(
        resolve_roots(Some("/one::/two"), "", None),
        Ok(strings(&["/one", "", "/two"]))
    );
}

#[test]
fn roots_fall_back_to_the_configuration_and_then_to_home() {
    assert_eq!(
        resolve_roots(None, "/configured", Some("/home/me")),
        Ok(strings(&["/configured"]))
    );
    assert_eq!(
        resolve_roots(Some(""), "/configured", Some("/home/me")),
        Ok(strings(&["/configured"]))
    );
    assert_eq!(resolve_roots(None, "", Some("/home/me")), Ok(strings(&["/home/me/.ghq"])));
    assert_eq!(resolve_roots(Some(""), "", Some("/home/me/")), Ok(strings(&["/home/me/.ghq"])));
    assert_eq!(resolve_roots(None, "", None), Err(ConfigurationError::HomeUnknown));
    assert_eq!(resolve_roots(Some(""), "", None), Err(ConfigurationError::HomeUnknown));
}

#[test]
fn markers_are_told_by_name() {
    assert_eq!(detect_marker(".git"), Some(VcsMarker::Git));
    assert_eq!(detect_marker(".svn"), Some(VcsMarker::Subversion));
    assert_eq!(detect_marker(".hg"), Some(VcsMarker::Mercurial));
    assert_eq!(detect_marker("_darcs"), Some(VcsMarker::Darcs));
    assert_eq!(detect_marker(".GIT"), None);
    assert_eq!(detect_marker("git"), None);
    assert_eq!(detect_marker(""), None);
    assert_eq!(VcsMarker::Git.dir_name(), ".git");
    assert_eq!(VcsMarker::Subversion.dir_name(), ".svn");
    assert_eq!(VcsMarker::Mercurial.dir_name(), ".hg");
    assert_eq!(VcsMarker::Darcs.dir_name(), "_darcs");
    assert!(is_vcs_root(&strings(&["src", ".git", "target"])));
    assert!(is_vcs_root(&strings(&["_darcs"])));
    assert!(!is_vcs_root(&strings(&["src", "git", ".github"])));
    assert!(!is_vcs_root(&strings(&[])));
}

#[test]
fn fetch_plan_and_its_command_line() {
    let clone = plan_fetch("u".to_owned(), "d".to_owned(), false, false, true);
    assert_eq!(
        clone,
        FetchAction::Clone { url: "u".to_owned(), dest: "d".to_owned(), shallow: true }
    );
    assert_eq!(git_arguments(&clone), strings(&["clone", "u", "d", "--depth", "1"]));
    let full = plan_fetch("u".to_owned(), "d".to_owned(), false, true, false);
    assert_eq!(git_arguments(&full), strings(&["clone", "u", "d"]));
    let pull = plan_fetch("u".to_owned(), "d".to_owned(), true, false, true);
    assert_eq!(pull, FetchAction::Pull { dest: "d".to_owned() });
    assert_eq!(git_arguments(&pull), strings(&["pull"]));
    let skip = plan_fetch("u".to_owned(), "d".to_owned(), true, true, true);
    assert_eq!(skip, FetchAction::Skip { dest: "d".to_owned() });
    assert_eq!(git_arguments(&skip), strings(&[]));
}

#[test]
fn configuration_is_asked_for_and_read() {
    assert_eq!(
        git_config_arguments("ghq.root"),
        strings(&["config", "--path", "--null", "--get-all", "ghq.root"])
    );
    assert_eq!(config_value("/home/me/src\0"), "/home/me/src");
    assert_eq!(config_value("/home/me/src"), "/home/me/src");
    assert_eq!(config_value("\0"), "");
    assert_eq!(config_value(""), "");
}

#[test]
fn white_space_is_what_the_standard_says() {
    for c in ['\t', '\n', '\u{b}', '\u{c}', '\r', ' ', '\u{85}', '\u{a0}', '\u{1680}', '\u{2000}',
        '\u{200a}', '\u{2028}', '\u{2029}', '\u{202f}', '\u{205f}', '\u{3000}']
    {
        assert!(is_space(c));
    }
    for c in ['a', '\0', '\u{8}', '\u{e}', '\u{200b}', '\u{feff}', '_'] {
        assert!(!is_space(c));
    }
    let mut n: u32 = 0;
    while n < 0x11000 {
        if let Some(c) = char::from_u32(n) {
            assert_eq!(is_space(c), c.is_whitespace());
        }
        n += 1;
    }
}

#[test]
fn trimming_and_lines() {
    assert_eq!(trim("  a b \n"), "a b");
    assert_eq!(trim("a"), "a");
    assert_eq!(trim(" \t\n"), "");
    assert_eq!(trim(""), "");
    assert_eq!(trim("\u{3000}x\u{a0}"), "x");
    assert!(blank(""));
    assert!(blank(" \n\t"));
    assert!(!blank(" a "));
    assert_eq!("a\nb".to_owned().split_eol(), strings(&["a", "b"]));
    assert_eq!("a\nb\n".to_owned().split_eol(), strings(&["a", "b", ""]));
    assert_eq!(" a ".to_owned().split_eol(), strings(&[" a "]));
    assert_eq!("".to_owned().split_eol(), strings(&[]));
    assert_eq!(" \n \n".to_owned().split_eol(), strings(&[]));
}

#[test]
fn command_output_is_handed_on() {
    assert_eq!(
        communicate("out".to_owned(), "err".to_owned(), Some(3)),
        Ok(("out".to_owned(), "err".to_owned(), 3))
    );
    assert_eq!(communicate("out".to_owned(), "err".to_owned(), None), Err(ProcessError::Signalled));
    let ran = communicate("x\ny".to_owned(), String::new(), Some(0));
    assert_eq!(get_lines(ran), Ok(strings(&["x", "y"])));
    let killed = communicate("x\ny".to_owned(), String::new(), None);
    assert_eq!(get_lines(killed), Err(ProcessError::Signalled));
    assert_eq!(read_content::<u8>(Ok(" text \n".to_owned())), Ok("text".to_owned()));
    assert_eq!(read_content::<u8>(Err(7)), Err(7));
}
