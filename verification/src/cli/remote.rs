//! The `remote` command: the peer of a repository.

use vstd::prelude::*;
use crate::model::{Repository, RepositoryView};

verus! {

/// Sets the peer that the repository is synchronized with.
pub fn remote_set(repo: &mut Repository, url: String)
    ensures
        final(repo)@ == (RepositoryView { origin: Some(url@), ..old(repo)@ }),
{
    repo.write_origin(url);
}

} // verus!
