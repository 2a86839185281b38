//! Where the details collected about a repository are kept.

use vstd::prelude::*;

use crate::paths::{repo_details_root, set_extension, with_extension};

verus! {

/// Names the path that the `git-digger` crate gives a repository under `root`:
/// what `Repository::from_url(url)` followed by `path(root)` gives, `None` where
/// `from_url` does not recognize the URL.
pub uninterp spec fn repository_path_of(url: Seq<char>, root: Seq<char>) -> Option<Seq<char>>;

/// `git_digger::Repository::from_url`, then `Repository::path` under `root`.
#[verifier::external_body]
pub(crate) fn repository_path(url: &str, root: &str) -> (r: Option<String>)
    ensures
        match r {
            Some(p) => repository_path_of(url@, root@) == Some(p@),
            None => repository_path_of(url@, root@) is None,
        },
{
    match git_digger::Repository::from_url(url) {
        Ok(repo) => Some(repo.path(std::path::Path::new(root)).to_string_lossy().into_owned()),
        Err(_) => None,
    }
}

/// The file that holds the details of the repository at `url`: its path under
/// `data/repo-details` with the extension `json`. None for an empty URL or one that
/// `git-digger` does not recognize.
pub open spec fn vcs_details_path(url: Seq<char>) -> Option<Seq<char>> {
    if url.len() == 0 {
        None
    } else {
        match repository_path_of(url, "data/repo-details"@) {
            Some(p) => Some(with_extension(p, "json"@)),
            None => None,
        }
    }
}

/// The file that holds the details of the repository at `url` (see `vcs_details_path`).
pub fn get_vcs_details_path(url: &str) -> (r: Option<String>)
    ensures
        match r {
            Some(p) => vcs_details_path(url@) == Some(p@),
            None => vcs_details_path(url@) is None,
        },
{
    let root = repo_details_root();
    let repository = repository_path(url, root.as_str());
    if url.unicode_len() == 0 {
        return None;
    }
    match repository {
        Some(path) => Some(set_extension(path.as_str(), "json")),
        None => None,
    }
}

} // verus!
