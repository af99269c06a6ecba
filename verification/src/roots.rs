//! The workspace roots: where they come from, and that there is always one.

use crate::path::{join_path, joined};
use crate::text::{lemma_split_len, split, split_str, views};
use vstd::prelude::*;

verus! {

/// The character between the roots in a list of roots.
pub const LIST_SEPARATOR: char = ':';

/// Why there is no workspace root.
#[derive(Debug, Clone, Copy, PartialEq, Eq, Structural)]
pub enum ConfigurationError {
    /// Nothing is configured and the home directory is not known.
    HomeUnknown,
}

/// The roots, in order. A list in the environment that is not empty comes
/// first and is split at its separators; then the one configured root; and
/// where that is empty too, `.ghq` under the home directory.
pub open spec fn roots_of(
    env: Option<Seq<char>>,
    configured: Seq<char>,
    home: Option<Seq<char>>,
) -> Result<Seq<Seq<char>>, ConfigurationError> {
    if env is Some && env->0.len() > 0 {
        Ok(split(env->0, LIST_SEPARATOR))
    } else if configured.len() > 0 {
        Ok(seq![configured])
    } else {
        match home {
            Some(dir) => Ok(seq![joined(dir, ".ghq"@)]),
            None => Err(ConfigurationError::HomeUnknown),
        }
    }
}

/// The view of what a caller knows of a setting.
pub open spec fn setting_view(value: Option<&str>) -> Option<Seq<char>> {
    match value {
        Some(v) => Some(v@),
        None => None,
    }
}

/// The workspace roots, in order and never none: from the list `env` of the
/// environment, else the `configured` root, else `.ghq` under `home`.
pub fn resolve_roots(env: Option<&str>, configured: &str, home: Option<&str>) -> (roots: Result<
    Vec<String>,
    ConfigurationError,
>)
    ensures
        match roots {
            Ok(list) => roots_of(setting_view(env), configured@, setting_view(home)) == Ok::<
                Seq<Seq<char>>,
                ConfigurationError,
            >(views(list@)) && list.len() >= 1,
            Err(e) => roots_of(setting_view(env), configured@, setting_view(home)) == Err::<
                Seq<Seq<char>>,
                ConfigurationError,
            >(e),
        },
{
    match env {
        Some(list) => {
            if !list.is_empty() {
                proof {
                    lemma_split_len(list@, LIST_SEPARATOR);
                }
                return Ok(split_str(list, LIST_SEPARATOR));
            }
        },
        None => {},
    }
    let mut roots: Vec<String> = Vec::new();
    if !configured.is_empty() {
        roots.push(configured.to_owned());
        proof {
            assert(views(roots@) =~= seq![configured@]);
        }
        return Ok(roots);
    }
    match home {
        Some(dir) => {
            let fallback = join_path(dir, ".ghq");
            roots.push(fallback);
            proof {
                assert(views(roots@) =~= seq![joined(dir@, ".ghq"@)]);
            }
            Ok(roots)
        },
        None => Err(ConfigurationError::HomeUnknown),
    }
}

/// The roots to show: all of them, or the first where there is one.
pub open spec fn first_or_all(roots: Seq<Seq<char>>, all: bool) -> Seq<Seq<char>> {
    if all || roots.len() == 0 {
        roots
    } else {
        seq![roots[0]]
    }
}

/// The roots to show: all of them, or the first.
pub fn shown_roots(roots: &Vec<String>, all: bool) -> (lines: Vec<String>)
    ensures
        views(lines@) == first_or_all(views(roots@), all),
{
    let mut lines: Vec<String> = Vec::new();
    let mut i: usize = 0;
    while i < roots.len() && (all || i == 0)
        invariant
            i <= roots.len(),
            !all ==> i <= 1,
            views(lines@) == views(roots@).subrange(0, i as int),
        decreases roots.len() - i,
    {
        let root = roots[i].clone();
        proof {
            assert(views(lines@.push(root)) == views(lines@).push(root@));
            assert(views(roots@).subrange(0, i + 1) == views(roots@).subrange(0, i as int).push(
                roots@[i as int]@,
            ));
        }
        lines.push(root);
        i = i + 1;
    }
    proof {
        if all || roots.len() == 0 {
            assert(views(roots@).subrange(0, roots@.len() as int) == views(roots@));
        } else {
            assert(views(roots@).subrange(0, 1) == seq![views(roots@)[0]]);
        }
    }
    lines
}

} // verus!
