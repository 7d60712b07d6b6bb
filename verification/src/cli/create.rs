//! The `init` and `new` commands: a repository where there was none.

use vstd::prelude::*;
use crate::fs::{empty_repository, root_of, WsvcFsErrorView};
use crate::model::Repository;
use crate::text::join3;
use crate::{WsvcError, WsvcErrorView};

verus! {

/// Creates a repository for the directory `pwd`; bare only where `bare`
/// says so. `root_exists` says whether the chosen root is there already.
pub fn init(pwd: &str, bare: Option<bool>, root_exists: bool) -> (r: Result<Repository, WsvcError>)
    ensures
        match r {
            Ok(repo) => !root_exists && repo@ == empty_repository(
                root_of(pwd@, bare == Some(true)),
                repo@.lock,
            ),
            Err(e) => root_exists && e@ == WsvcErrorView::FsError(
                WsvcFsErrorView::DirAlreadyExists(root_of(pwd@, bare == Some(true))),
            ),
        },
{
    let is_bare = match bare {
        Some(b) => b,
        None => false,
    };
    match Repository::new(pwd, is_bare, root_exists) {
        Ok(repo) => Ok(repo),
        Err(e) => Err(WsvcError::FsError(e)),
    }
}

/// Creates a repository for the directory `name` under `pwd`; bare only
/// where `bare` says so. `root_exists` says whether the chosen root is there
/// already.
pub fn new(pwd: &str, name: &str, bare: Option<bool>, root_exists: bool) -> (r: Result<
    Repository,
    WsvcError,
>)
    ensures
        match r {
            Ok(repo) => !root_exists && repo@ == empty_repository(
                root_of(pwd@ + "/"@ + name@, bare == Some(true)),
                repo@.lock,
            ),
            Err(e) => root_exists && e@ == WsvcErrorView::FsError(
                WsvcFsErrorView::DirAlreadyExists(
                    root_of(pwd@ + "/"@ + name@, bare == Some(true)),
                ),
            ),
        },
{
    let path = join3(pwd, "/", name);
    init(path.as_str(), bare, root_exists)
}

} // verus!
