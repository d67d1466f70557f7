//! Management of a directory of bare git mirror repositories.
//!
//! The library holds the decision logic of the tool: how a repository's
//! directory name is derived from its clone URL, how mirror remotes are
//! named, which remote an `unlink` request selects, how the output of the
//! bareness query is classified, and the step-by-step plan that a push run
//! follows. The surrounding binary performs the actual `git` subprocess
//! calls and feeds their outcomes back into these functions.

pub mod errors;
pub mod lifecycle;
pub mod names;
pub mod push;
pub mod remotes;
pub mod stamp;
pub mod text;
