//! What comes back from a version-control command, as text.

pub mod util;
