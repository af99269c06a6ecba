//! Canonical repository identities and an index of local checkouts.
//!
//! A user names a repository by a URL, by a short `host/owner/name` token or
//! by a path relative to the working directory. This crate turns each of these
//! into one [`repository::Repository`], finds the checkouts that already
//! live under a set of workspace roots, and decides what has to be fetched.
//! Everything here is a function of plain values: whoever calls it reads the
//! file system, the environment and the network.

pub mod address;
pub mod commands;
pub mod path;
pub mod repository;
pub mod roots;
pub mod scan;
pub mod text;
pub mod vcs;
pub mod vcs_info;
pub mod workspace;

pub use commands::{command_get, command_list, command_root};
pub use repository::{parse_token, Repository, SpecifierError};
pub use scan::{DirTree, LocalRepository, Query};
pub use workspace::Workspace;
