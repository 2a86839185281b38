//! The decisions of the tools that walk over the crates' repositories: which
//! repository to clone or update, which to collect data from, and when to stop.

use vstd::prelude::*;

use crate::common::{lowercase_of, owner_and_repo, get_owner_and_repo, to_lowercase};
use crate::crates::{limit_reached, Crate, VCSDetails};
use crate::repository::{repository_path, repository_path_of};
use crate::paths::get_repos_folder;
use crate::text_map::TextSet;

verus! {

/// Names what chrono's `NaiveDateTime::parse_from_str(text, format)` gives: the
/// point in time as the whole seconds since 1970-01-01 00:00:00 and the
/// nanoseconds after them, or `None` where the text does not fit the format.
pub uninterp spec fn parsed_time(text: Seq<char>, format: Seq<char>) -> Option<(int, int)>;

/// `NaiveDateTime::parse_from_str` of chrono, read as seconds and nanoseconds
/// (`and_utc().timestamp()` and `timestamp_subsec_nanos()`).
#[verifier::external_body]
fn parse_time(text: &str, format: &str) -> (r: Option<(i64, u32)>)
    ensures
        match r {
            Some(t) => parsed_time(text@, format@) == Some((t.0 as int, t.1 as int)),
            None => parsed_time(text@, format@) is None,
        },
{
    match chrono::NaiveDateTime::parse_from_str(text, format) {
        Ok(t) => Some((t.and_utc().timestamp(), t.and_utc().timestamp_subsec_nanos())),
        Err(_) => None,
    }
}

/// The format of the update times of crates.io, such as `2023-09-18 01:44:10.299066`.
pub open spec fn update_time_format() -> Seq<char> {
    "%Y-%m-%d %H:%M:%S.%f"@
}

/// A time given as seconds and nanoseconds comes strictly before another.
pub open spec fn earlier(t: (int, int), before: (int, int)) -> bool {
    t.0 < before.0 || (t.0 == before.0 && t.1 < before.1)
}

/// Whether an update time, as parsed, is too old: before `before`, or not a time at
/// all.
pub fn too_old_at(parsed: Option<(i64, u32)>, before: (i64, u32)) -> (r: bool)
    ensures
        r == match parsed {
            Some(t) => earlier((t.0 as int, t.1 as int), (before.0 as int, before.1 as int)),
            None => true,
        },
{
    match parsed {
        Some(t) => t.0 < before.0 || (t.0 == before.0 && t.1 < before.1),
        None => true,
    }
}

/// A crate last updated before `before`, or whose update time cannot be read.
pub open spec fn is_too_old(updated_at: Seq<char>, before: (int, int)) -> bool {
    match parsed_time(updated_at, update_time_format()) {
        Some(t) => earlier(t, before),
        None => true,
    }
}

/// Whether the crate was last updated before `before` (see `is_too_old`).
pub fn crate_too_old(krate: &Crate, before: (i64, u32)) -> (r: bool)
    ensures
        r == is_too_old(krate.updated_at@, (before.0 as int, before.1 as int)),
{
    let parsed = parse_time(krate.updated_at.as_str(), "%Y-%m-%d %H:%M:%S.%f");
    too_old_at(parsed, before)
}

/// The URL to clone a crate from: its repository, else its homepage, in
/// lowercase; empty where it has neither.
pub open spec fn repository_url_of(c: Crate) -> Seq<char> {
    if c.repository@.len() > 0 {
        lowercase_of(c.repository@)
    } else if c.homepage@.len() > 0 {
        lowercase_of(c.homepage@)
    } else {
        Seq::empty()
    }
}

/// The URL to clone a crate from (see `repository_url_of`).
pub fn get_repository_url(krate: &Crate) -> (url: String)
    ensures
        url@ == repository_url_of(*krate),
{
    if krate.repository.unicode_len() > 0 {
        return to_lowercase(krate.repository.as_str());
    }
    if krate.homepage.unicode_len() > 0 {
        return to_lowercase(krate.homepage.as_str());
    }
    String::new()
}

/// What to do with a crate when cloning or updating repositories.
pub enum CloneStep {
    /// Go on with the next crate.
    Skip,
    /// Clone or update the repository at `url`, kept at `path` under `data/repos`.
    Update { url: String, path: String },
}

/// A run of the cloning tool: its settings, the repositories visited and the number
/// of repositories updated.
pub struct CloneRun {
    /// The most repositories to update; 0 for no limit.
    pub limit: u32,
    /// Only crates updated in this many recent days count; 0 for all crates.
    pub recent: u32,
    /// The point in time `recent` days ago, as seconds and nanoseconds.
    pub before: (i64, u32),
    /// Whether to try again where a clone failed before.
    pub force: bool,
    /// The number of repositories updated so far.
    pub count: u32,
    /// The repositories visited so far.
    pub seen: TextSet,
}

/// The step that a crate leads to, and the repositories visited after it:
/// crates too old (when only recent ones count), without URL, or whose URL was
/// visited are skipped; any other URL is recorded, and leads to an update where
/// `git-digger` recognizes it.
pub open spec fn clone_step_fits(
    step: CloneStep,
    c: Crate,
    recent: u32,
    before: (i64, u32),
    seen: Set<Seq<char>>,
    seen_after: Set<Seq<char>>,
) -> bool {
    let url = repository_url_of(c);
    if (recent > 0 && is_too_old(c.updated_at@, (before.0 as int, before.1 as int))) || url.len() == 0
        || seen.contains(url) {
        step is Skip && seen_after == seen
    } else {
        &&& seen_after == seen.insert(url)
        &&& match repository_path_of(url, "data/repos"@) {
            Some(p) => step matches CloneStep::Update { url: u, path } && u@ == url && path@ == p,
            None => step is Skip,
        }
    }
}

impl CloneRun {
    /// A new run with nothing visited yet.
    pub fn new(limit: u32, recent: u32, before: (i64, u32), force: bool) -> (run: Self)
        ensures
            run.limit == limit,
            run.recent == recent,
            run.before == before,
            run.force == force,
            run.count == 0,
            run.seen.wf(),
            run.seen.view() == Set::<Seq<char>>::empty(),
    {
        CloneRun { limit, recent, before, force, count: 0, seen: TextSet::new() }
    }

    /// Whether the run has updated as many repositories as it may.
    pub fn done(&self) -> (r: bool)
        ensures
            r == limit_reached_spec(self.count, self.limit),
    {
        limit_reached(self.count, self.limit)
    }

    /// The step for the next crate (see `clone_step_fits`).
    pub fn select(&mut self, krate: &Crate) -> (step: CloneStep)
        requires
            old(self).seen.wf(),
        ensures
            final(self).seen.wf(),
            final(self).limit == old(self).limit,
            final(self).recent == old(self).recent,
            final(self).before == old(self).before,
            final(self).force == old(self).force,
            final(self).count == old(self).count,
            clone_step_fits(
                step,
                *krate,
                old(self).recent,
                old(self).before,
                old(self).seen.view(),
                final(self).seen.view(),
            ),
    {
        if self.recent > 0 && crate_too_old(krate, self.before) {
            return CloneStep::Skip;
        }
        let url = get_repository_url(krate);
        if url.unicode_len() == 0 {
            return CloneStep::Skip;
        }
        if self.seen.contains(url.as_str()) {
            return CloneStep::Skip;
        }
        self.seen.insert(url.as_str());
        let root = get_repos_folder();
        match repository_path(url.as_str(), root.as_str()) {
            Some(path) => CloneStep::Update { url, path },
            None => CloneStep::Skip,
        }
    }

    /// Whether the repository may be cloned or updated, given the clone error that
    /// its details hold: only where there is none, unless the run forces it.
    pub fn allows(&self, clone_error: &str) -> (r: bool)
        ensures
            r == (clone_error@.len() == 0 || self.force),
    {
        clone_error.unicode_len() == 0 || self.force
    }

    /// Whether the repository answered well enough to be cloned or updated: with
    /// status 200.
    pub fn reachable(status: u16) -> (r: bool)
        ensures
            r == (status == 200),
    {
        status == 200
    }

    /// The details of a repository that could not be cloned or updated: as they
    /// were, with the clone error recorded (see `clone_error_text`), so that later
    /// runs leave the repository alone unless forced.
    pub fn clone_failed(details: VCSDetails, error: &str) -> (d: VCSDetails)
        ensures
            d.git_clone_error@ == clone_error_text(error@),
            d.has_github_action == details.has_github_action,
            d.has_gitlab_pipeline == details.has_gitlab_pipeline,
            d.has_circle_ci == details.has_circle_ci,
            d.has_cirrus_ci == details.has_cirrus_ci,
            d.has_travis_ci == details.has_travis_ci,
            d.has_jenkins == details.has_jenkins,
            d.has_appveyor == details.has_appveyor,
            d.has_azure_pipeline == details.has_azure_pipeline,
            d.has_bitbucket_pipeline == details.has_bitbucket_pipeline,
            d.commit_count == details.commit_count,
            d.cargo_toml_in_root == details.cargo_toml_in_root,
            d.cargo_fmt == details.cargo_fmt,
            d.has_rustfmt_toml == details.has_rustfmt_toml,
            d.has_dot_rustfmt_toml == details.has_dot_rustfmt_toml,
    {
        let mut d = details;
        d.git_clone_error = if error.unicode_len() > 0 {
            String::from_str(error)
        } else {
            proof {
                reveal_strlit("could not clone");
            }
            String::from_str("could not clone")
        };
        d
    }

    /// Counts an updated repository.
    pub fn updated(&mut self)
        requires
            old(self).count < u32::MAX,
        ensures
            final(self).count == old(self).count + 1,
            final(self).limit == old(self).limit,
            final(self).recent == old(self).recent,
            final(self).before == old(self).before,
            final(self).force == old(self).force,
            final(self).seen == old(self).seen,
    {
        self.count = self.count + 1;
    }
}

/// The clone error recorded for a repository: the error's text, or `could not
/// clone` where the text is empty.
pub open spec fn clone_error_text(error: Seq<char>) -> Seq<char> {
    if error.len() > 0 {
        error
    } else {
        "could not clone"@
    }
}

/// A repository whose clone failed is left alone by later runs unless they are
/// forced: the error recorded is never empty, so `CloneRun::allows` gives `force`.
pub proof fn lemma_failed_clone_skipped(error: Seq<char>, force: bool)
    ensures
        (clone_error_text(error).len() == 0 || force) == force,
{
    reveal_strlit("could not clone");
}

/// Whether a count has reached a limit; a limit of 0 means no limit.
pub open spec fn limit_reached_spec(count: u32, limit: u32) -> bool {
    limit > 0 && count >= limit
}

/// The repository of a crate to collect data from, as host, owner and name, and
/// the repositories visited after it: a crate without repository, or whose
/// repository is not one of GitHub or GitLab, is skipped; so is one whose
/// repository, in lowercase, was visited; any other is recorded in lowercase.
pub open spec fn vcs_target_fits(
    target: Option<(String, String, String)>,
    c: Crate,
    seen: Set<Seq<char>>,
    seen_after: Set<Seq<char>>,
) -> bool {
    let parts = owner_and_repo(c.repository@);
    let key = lowercase_of(c.repository@);
    if c.repository@.len() == 0 || parts.1.len() == 0 || seen.contains(key) {
        target is None && seen_after == seen
    } else {
        &&& seen_after == seen.insert(key)
        &&& target matches Some(t) && (t.0@, t.1@, t.2@) == parts
    }
}

/// The repository of the next crate to collect data from (see `vcs_target_fits`).
pub fn vcs_target(krate: &Crate, seen: &mut TextSet) -> (target: Option<(String, String, String)>)
    requires
        old(seen).wf(),
    ensures
        final(seen).wf(),
        vcs_target_fits(target, *krate, old(seen).view(), final(seen).view()),
{
    if krate.repository.unicode_len() == 0 {
        return None;
    }
    let parts = get_owner_and_repo(krate.repository.as_str());
    if parts.1.unicode_len() == 0 {
        return None;
    }
    let key = to_lowercase(krate.repository.as_str());
    if seen.contains(key.as_str()) {
        return None;
    }
    seen.insert(key.as_str());
    Some(parts)
}


/// The URL of the repository that a step updates, if it updates one.
pub open spec fn updated_url(step: CloneStep) -> Option<Seq<char>> {
    match step {
        CloneStep::Update { url, path } => Some(url@),
        CloneStep::Skip => None,
    }
}

/// A step only adds to the repositories visited, and a repository that a step
/// updates was not visited before it and is after it.
pub proof fn lemma_clone_step_visits(
    step: CloneStep,
    c: Crate,
    recent: u32,
    before: (i64, u32),
    seen: Set<Seq<char>>,
    seen_after: Set<Seq<char>>,
)
    requires
        clone_step_fits(step, c, recent, before, seen, seen_after),
    ensures
        seen.subset_of(seen_after),
        step matches CloneStep::Update { url, path } ==> !seen.contains(url@) && seen_after.contains(url@),
{
}

/// A run updates a repository at most once: where a crate led to updating a URL,
/// a crate of a later step, when the repositories visited have only grown in
/// between, does not lead to updating it again.
pub proof fn lemma_repository_updated_once(
    first: CloneStep,
    c1: Crate,
    second: CloneStep,
    c2: Crate,
    recent: u32,
    before: (i64, u32),
    s0: Set<Seq<char>>,
    s1: Set<Seq<char>>,
    s2: Set<Seq<char>>,
    s3: Set<Seq<char>>,
)
    requires
        clone_step_fits(first, c1, recent, before, s0, s1),
        s1.subset_of(s2),
        clone_step_fits(second, c2, recent, before, s2, s3),
    ensures
        updated_url(first) is Some && updated_url(second) is Some ==> updated_url(first) != updated_url(
            second,
        ),
{
}


/// Data is collected from a repository once: a crate whose repository, in
/// lowercase, was visited leads to no collection, and one that leads to a
/// collection leaves its repository visited.
pub proof fn lemma_vcs_target_visits(
    target: Option<(String, String, String)>,
    c: Crate,
    seen: Set<Seq<char>>,
    seen_after: Set<Seq<char>>,
)
    requires
        vcs_target_fits(target, c, seen, seen_after),
    ensures
        seen.subset_of(seen_after),
        seen.contains(lowercase_of(c.repository@)) ==> target is None,
        target is Some ==> !seen.contains(lowercase_of(c.repository@)) && seen_after.contains(
            lowercase_of(c.repository@),
        ),
{
}

} // verus!
