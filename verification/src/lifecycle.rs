//! The precondition guards of each subcommand, and the repository classifier.
//!
//! Each guard takes the facts the caller has established about the store (does
//! the target directory exist, did the bareness query classify it as a
//! repository) and decides whether the operation may proceed and with which
//! error it fails otherwise. The caller performs no destructive step unless
//! the guard returns `Ok`.

use vstd::prelude::*;

use crate::errors::SpeculoError;
use crate::text::{contains_seq, contains_substr};

verus! {

/// Reads the result of `git rev-parse --is-bare-repository` run with the
/// path as both git-dir and work-tree. A path counts as a repository of the
/// store exactly when the query succeeded and its output holds the token
/// `false` — which is how a `--mirror` clone answers this particular query.
/// A failed subprocess never classifies as a repository.
pub fn classify_repo_output(success: bool, out: &str) -> (r: bool)
    ensures
        r == (success && contains_seq(out@, "false"@)),
{
    success && contains_substr(out, "false")
}

/// May `add` clone into the resolved directory name? It fails with
/// `AlreadyExists` — and clones nothing — exactly when a directory of that
/// name is already present under the root.
pub fn add_guard(target_exists: bool) -> (r: Result<(), SpeculoError>)
    ensures
        r == if target_exists {
            Err::<(), SpeculoError>(SpeculoError::AlreadyExists)
        } else {
            Ok::<(), SpeculoError>(())
        },
{
    if target_exists {
        Err(SpeculoError::AlreadyExists)
    } else {
        Ok(())
    }
}

/// May `mirror` add a remote to the base? It fails with `NotFound` exactly
/// when the base directory does not exist under the root.
pub fn mirror_guard(base_exists: bool) -> (r: Result<(), SpeculoError>)
    ensures
        r == if base_exists {
            Ok::<(), SpeculoError>(())
        } else {
            Err::<(), SpeculoError>(SpeculoError::NotFound)
        },
{
    if base_exists {
        Ok(())
    } else {
        Err(SpeculoError::NotFound)
    }
}

/// May `unlink` touch the base's remotes? It fails with `NotARepository`
/// exactly when the classifier rejected the base.
pub fn unlink_guard(is_repo: bool) -> (r: Result<(), SpeculoError>)
    ensures
        r == if is_repo {
            Ok::<(), SpeculoError>(())
        } else {
            Err::<(), SpeculoError>(SpeculoError::NotARepository)
        },
{
    if is_repo {
        Ok(())
    } else {
        Err(SpeculoError::NotARepository)
    }
}

/// May `remove` delete the named directory? Classification is checked first:
/// a path that is not a repository fails with `NotARepository` and must not
/// be deleted, whether or not it exists; an absent path then fails with
/// `NotFound`. Only `Ok` licenses the deletion.
pub fn remove_guard(is_repo: bool, path_exists: bool) -> (r: Result<(), SpeculoError>)
    ensures
        r == if !is_repo {
            Err::<(), SpeculoError>(SpeculoError::NotARepository)
        } else if !path_exists {
            Err::<(), SpeculoError>(SpeculoError::NotFound)
        } else {
            Ok::<(), SpeculoError>(())
        },
{
    if !is_repo {
        Err(SpeculoError::NotARepository)
    } else if !path_exists {
        Err(SpeculoError::NotFound)
    } else {
        Ok(())
    }
}

} // verus!
