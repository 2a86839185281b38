//! The lists of crates and the statistics that the site shows.

use vstd::prelude::*;

use crate::common::{get_owner_and_repo, owner_and_repo};
use crate::common::{lowercase_of, to_lowercase};
use crate::crates::{Crate, Repo};
use crate::order::{apply_order, is_index_permutation, key_less, key_of, stable_order};
use crate::text_map::{keys_of, strictly_ascending};
use crate::text::{has_prefix, percentage, percentage_text, text_equal};
use crate::text_map::TextMap;

verus! {

/// The indices below `n` that satisfy `p`, in ascending order.
pub open spec fn indices_where(n: nat, p: spec_fn(int) -> bool) -> Seq<usize>
    decreases n,
{
    if n == 0 {
        Seq::empty()
    } else {
        let rest = indices_where((n - 1) as nat, p);
        if p(n - 1) {
            rest.push((n - 1) as usize)
        } else {
            rest
        }
    }
}

/// The indices that `indices_where` gives are ascending, below `n`, and exactly the
/// ones that satisfy `p`.
pub proof fn lemma_indices_where(n: nat, p: spec_fn(int) -> bool)
    requires
        n <= usize::MAX,
    ensures
        forall|i: int| 0 <= i < indices_where(n, p).len() ==> #[trigger] indices_where(n, p)[i] < n && p(indices_where(n, p)[i] as int),
        forall|i: int, j: int| 0 <= i < j < indices_where(n, p).len() ==> #[trigger] indices_where(n, p)[i] < #[trigger] indices_where(n, p)[j],
        forall|k: int| 0 <= k < n && p(k) ==> #[trigger] indices_where(n, p).contains(k as usize),
        indices_where(n, p).len() <= n,
    decreases n,
{
    if n > 0 {
        lemma_indices_where((n - 1) as nat, p);
        let rest = indices_where((n - 1) as nat, p);
        assert forall|k: int| 0 <= k < n && p(k) implies #[trigger] indices_where(n, p).contains(k as usize) by {
            if k < n - 1 {
                assert(rest.contains(k as usize));
                let i = choose|i: int| 0 <= i < rest.len() && rest[i] == k as usize;
                assert(indices_where(n, p)[i] == k as usize);
            } else {
                assert(indices_where(n, p)[rest.len() as int] == k as usize);
            }
        }
    }
}

/// The value of an optional manifest field, or `na` where it is missing.
pub open spec fn or_na(t: Option<String>) -> Seq<char> {
    match t {
        Some(s) => s@,
        None => "na"@,
    }
}

/// The crate's homepage points somewhere else than GitHub, GitLab, crates.io, docs.rs
/// or lib.rs.
pub open spec fn interesting_homepage(c: Crate) -> bool {
    match c.cargo.package.homepage {
        Some(h) => {
            &&& !"https://github.com/"@.is_prefix_of(h@)
            &&& !"http://github.com/"@.is_prefix_of(h@)
            &&& !"https://gitlab.com/"@.is_prefix_of(h@)
            &&& !"https://crates.io/"@.is_prefix_of(h@)
            &&& !"https://docs.rs/"@.is_prefix_of(h@)
            &&& !"https://libs.rs/"@.is_prefix_of(h@)
        },
        None => false,
    }
}

/// Whether the crate's homepage is interesting (see `interesting_homepage`).
pub fn crate_has_interesting_homepage(krate: &Crate) -> (r: bool)
    ensures
        r == interesting_homepage(*krate),
{
    match &krate.cargo.package.homepage {
        Some(h) => {
            let h = h.as_str();
            !has_prefix(h, "https://github.com/") && !has_prefix(h, "http://github.com/")
                && !has_prefix(h, "https://gitlab.com/") && !has_prefix(h, "https://crates.io/")
                && !has_prefix(h, "https://docs.rs/") && !has_prefix(h, "https://libs.rs/")
        },
        None => false,
    }
}

/// The crate's repository is on GitHub, and it has neither GitHub Actions, nor
/// CircleCI, nor Cirrus CI.
pub open spec fn github_without_ci(c: Crate) -> bool {
    &&& c.repository@.len() > 0
    &&& owner_and_repo(c.repository@).1.len() > 0
    &&& owner_and_repo(c.repository@).0 == "github"@
    &&& !(c.vcs_details.has_github_action || c.vcs_details.has_circle_ci
        || c.vcs_details.has_cirrus_ci)
}

/// The crate's repository is on GitLab, and it has no GitLab pipeline.
pub open spec fn gitlab_without_ci(c: Crate) -> bool {
    &&& c.repository@.len() > 0
    &&& owner_and_repo(c.repository@).1.len() > 0
    &&& owner_and_repo(c.repository@).0 == "gitlab"@
    &&& !c.vcs_details.has_gitlab_pipeline
}

/// Whether the crate is on GitHub without continuous integration.
pub fn on_github_but_no_ci(krate: &Crate) -> (r: bool)
    ensures
        r == github_without_ci(*krate),
{
    if krate.repository.unicode_len() == 0 {
        return false;
    }
    let (host, owner, _) = get_owner_and_repo(krate.repository.as_str());
    if owner.unicode_len() == 0 {
        return false;
    }
    if !text_equal(host.as_str(), "github") {
        return false;
    }
    if krate.vcs_details.has_github_action || krate.vcs_details.has_circle_ci
        || krate.vcs_details.has_cirrus_ci {
        return false;
    }
    true
}

/// Whether the crate is on GitLab without continuous integration.
pub fn on_gitlab_but_no_ci(krate: &Crate) -> (r: bool)
    ensures
        r == gitlab_without_ci(*krate),
{
    if krate.repository.unicode_len() == 0 {
        return false;
    }
    let (host, owner, _) = get_owner_and_repo(krate.repository.as_str());
    if owner.unicode_len() == 0 {
        return false;
    }
    if !text_equal(host.as_str(), "gitlab") {
        return false;
    }
    if krate.vcs_details.has_gitlab_pipeline {
        return false;
    }
    true
}

/// The cases that the statistics page counts, each a list of crates.
#[derive(Clone, Copy, PartialEq, Eq, Structural)]
pub enum CrateCase {
    GithubButNoCi,
    GitlabButNoCi,
    HasCargoTomlInRoot,
    HasNoCargoTomlInRoot,
    HasHomepageButNoRepo,
    HasRustfmtToml,
    HasDotRustfmtToml,
    HasBothRustfmtToml,
    NoHomepageNoRepo,
    CratesWithoutOwner,
    CratesWithoutOwnerName,
    CratesWithoutEditionOrRustVersion,
    CratesWithBothEditionAndRustVersion,
    HasInterestingHomepage,
    CratesWithCargoLock,
    CratesWithoutCargoLock,
    CratesWithoutCargoLockWithoutMainRs,
}

/// Whether a crate belongs to a case.
pub open spec fn case_holds(case: CrateCase, c: Crate) -> bool {
    match case {
        CrateCase::GithubButNoCi => github_without_ci(c),
        CrateCase::GitlabButNoCi => gitlab_without_ci(c),
        CrateCase::HasCargoTomlInRoot => c.vcs_details.cargo_toml_in_root,
        CrateCase::HasNoCargoTomlInRoot => !c.vcs_details.cargo_toml_in_root,
        CrateCase::HasHomepageButNoRepo => c.homepage@.len() > 0 && c.repository@.len() == 0,
        CrateCase::HasRustfmtToml => c.vcs_details.has_rustfmt_toml,
        CrateCase::HasDotRustfmtToml => c.vcs_details.has_dot_rustfmt_toml,
        CrateCase::HasBothRustfmtToml => c.vcs_details.has_rustfmt_toml
            && c.vcs_details.has_dot_rustfmt_toml,
        CrateCase::NoHomepageNoRepo => c.homepage@.len() == 0 && c.repository@.len() == 0,
        CrateCase::CratesWithoutOwner => c.owner_name@.len() == 0 && c.owner_gh_login@.len()
            == 0,
        CrateCase::CratesWithoutOwnerName => c.owner_name@.len() == 0,
        CrateCase::CratesWithoutEditionOrRustVersion => c.cargo.package.edition is None
            && c.cargo.package.rust_dash_version is None,
        CrateCase::CratesWithBothEditionAndRustVersion => c.cargo.package.edition is Some
            && c.cargo.package.rust_dash_version is Some,
        CrateCase::HasInterestingHomepage => interesting_homepage(c),
        CrateCase::CratesWithCargoLock => c.crate_details.has_cargo_lock,
        CrateCase::CratesWithoutCargoLock => !c.crate_details.has_cargo_lock,
        CrateCase::CratesWithoutCargoLockWithoutMainRs => !c.crate_details.has_cargo_lock
            && !c.crate_details.has_main_rs,
    }
}

/// Whether a crate belongs to a case (see `case_holds`).
pub fn crate_in_case(case: &CrateCase, krate: &Crate) -> (r: bool)
    ensures
        r == case_holds(*case, *krate),
{
    match case {
        CrateCase::GithubButNoCi => on_github_but_no_ci(krate),
        CrateCase::GitlabButNoCi => on_gitlab_but_no_ci(krate),
        CrateCase::HasCargoTomlInRoot => krate.vcs_details.cargo_toml_in_root,
        CrateCase::HasNoCargoTomlInRoot => !krate.vcs_details.cargo_toml_in_root,
        CrateCase::HasHomepageButNoRepo => krate.homepage.unicode_len() > 0
            && krate.repository.unicode_len() == 0,
        CrateCase::HasRustfmtToml => krate.vcs_details.has_rustfmt_toml,
        CrateCase::HasDotRustfmtToml => krate.vcs_details.has_dot_rustfmt_toml,
        CrateCase::HasBothRustfmtToml => krate.vcs_details.has_rustfmt_toml
            && krate.vcs_details.has_dot_rustfmt_toml,
        CrateCase::NoHomepageNoRepo => krate.homepage.unicode_len() == 0
            && krate.repository.unicode_len() == 0,
        CrateCase::CratesWithoutOwner => krate.owner_name.unicode_len() == 0
            && krate.owner_gh_login.unicode_len() == 0,
        CrateCase::CratesWithoutOwnerName => krate.owner_name.unicode_len() == 0,
        CrateCase::CratesWithoutEditionOrRustVersion => krate.cargo.package.edition.is_none()
            && krate.cargo.package.rust_dash_version.is_none(),
        CrateCase::CratesWithBothEditionAndRustVersion => krate.cargo.package.edition.is_some()
            && krate.cargo.package.rust_dash_version.is_some(),
        CrateCase::HasInterestingHomepage => crate_has_interesting_homepage(krate),
        CrateCase::CratesWithCargoLock => krate.crate_details.has_cargo_lock,
        CrateCase::CratesWithoutCargoLock => !krate.crate_details.has_cargo_lock,
        CrateCase::CratesWithoutCargoLockWithoutMainRs => !krate.crate_details.has_cargo_lock
            && !krate.crate_details.has_main_rs,
    }
}

/// The path of a case's page, below the site folder and without extension.
pub open spec fn case_path(case: CrateCase) -> Seq<char> {
    match case {
        CrateCase::GithubButNoCi => "github-but-no-ci"@,
        CrateCase::GitlabButNoCi => "gitlab-but-no-ci"@,
        CrateCase::HasCargoTomlInRoot => "has-cargo-toml-in-root"@,
        CrateCase::HasNoCargoTomlInRoot => "has-no-cargo-toml-in-root"@,
        CrateCase::HasHomepageButNoRepo => "has-homepage-but-no-repo"@,
        CrateCase::HasRustfmtToml => "has-rustfmt-toml"@,
        CrateCase::HasDotRustfmtToml => "has-dot-rustfmt-toml"@,
        CrateCase::HasBothRustfmtToml => "has-both-rustfmt-toml"@,
        CrateCase::NoHomepageNoRepo => "no-homepage-no-repo"@,
        CrateCase::CratesWithoutOwner => "crates-without-owner"@,
        CrateCase::CratesWithoutOwnerName => "crates-without-owner-name"@,
        CrateCase::CratesWithoutEditionOrRustVersion => "crates-without-edition-or-rust-version"@,
        CrateCase::CratesWithBothEditionAndRustVersion => "crates-with-both-edition-and-rust-version"@,
        CrateCase::HasInterestingHomepage => "has-interesting-homepage"@,
        CrateCase::CratesWithCargoLock => "crates-with-cargo-lock"@,
        CrateCase::CratesWithoutCargoLock => "crates-without-cargo-lock"@,
        CrateCase::CratesWithoutCargoLockWithoutMainRs => "crates-without-cargo-lock-without-main-rs"@,
    }
}

/// The title of a case's page.
pub open spec fn case_title(case: CrateCase) -> Seq<char> {
    match case {
        CrateCase::GithubButNoCi => "On GitHub but has no CI"@,
        CrateCase::GitlabButNoCi => "On GitLab but has no CI"@,
        CrateCase::HasCargoTomlInRoot => "Has Cargo.toml file in the root of the repository"@,
        CrateCase::HasNoCargoTomlInRoot => "Has no Cargo.toml file in the root of the repository"@,
        CrateCase::HasHomepageButNoRepo => "Has homepage, but no repository"@,
        CrateCase::HasRustfmtToml => "Has rustfmt.toml file"@,
        CrateCase::HasDotRustfmtToml => "Has .rustfmt.toml file"@,
        CrateCase::HasBothRustfmtToml => "Has both rustfmt.toml and .rustfmt.toml file in the root of the repository"@,
        CrateCase::NoHomepageNoRepo => "No repository, no homepage"@,
        CrateCase::CratesWithoutOwner => "Crates without owner"@,
        CrateCase::CratesWithoutOwnerName => "Crates without owner name"@,
        CrateCase::CratesWithoutEditionOrRustVersion => "Crates without edition or rust-version"@,
        CrateCase::CratesWithBothEditionAndRustVersion => "Crates with both edition and rust-version"@,
        CrateCase::HasInterestingHomepage => "Has interesting homepage"@,
        CrateCase::CratesWithCargoLock => "Crates with Cargo.lock file"@,
        CrateCase::CratesWithoutCargoLock => "Crates without Cargo.lock file"@,
        CrateCase::CratesWithoutCargoLockWithoutMainRs => "Crates without Cargo.lock and without src/main.rs file"@,
    }
}

/// The path of a case's page (see `case_path`).
pub fn case_path_of(case: &CrateCase) -> (p: &'static str)
    ensures
        p@ == case_path(*case),
{
    match case {
        CrateCase::GithubButNoCi => "github-but-no-ci",
        CrateCase::GitlabButNoCi => "gitlab-but-no-ci",
        CrateCase::HasCargoTomlInRoot => "has-cargo-toml-in-root",
        CrateCase::HasNoCargoTomlInRoot => "has-no-cargo-toml-in-root",
        CrateCase::HasHomepageButNoRepo => "has-homepage-but-no-repo",
        CrateCase::HasRustfmtToml => "has-rustfmt-toml",
        CrateCase::HasDotRustfmtToml => "has-dot-rustfmt-toml",
        CrateCase::HasBothRustfmtToml => "has-both-rustfmt-toml",
        CrateCase::NoHomepageNoRepo => "no-homepage-no-repo",
        CrateCase::CratesWithoutOwner => "crates-without-owner",
        CrateCase::CratesWithoutOwnerName => "crates-without-owner-name",
        CrateCase::CratesWithoutEditionOrRustVersion => "crates-without-edition-or-rust-version",
        CrateCase::CratesWithBothEditionAndRustVersion => "crates-with-both-edition-and-rust-version",
        CrateCase::HasInterestingHomepage => "has-interesting-homepage",
        CrateCase::CratesWithCargoLock => "crates-with-cargo-lock",
        CrateCase::CratesWithoutCargoLock => "crates-without-cargo-lock",
        CrateCase::CratesWithoutCargoLockWithoutMainRs => "crates-without-cargo-lock-without-main-rs",
    }
}

/// The title of a case's page (see `case_title`).
pub fn case_title_of(case: &CrateCase) -> (t: &'static str)
    ensures
        t@ == case_title(*case),
{
    match case {
        CrateCase::GithubButNoCi => "On GitHub but has no CI",
        CrateCase::GitlabButNoCi => "On GitLab but has no CI",
        CrateCase::HasCargoTomlInRoot => "Has Cargo.toml file in the root of the repository",
        CrateCase::HasNoCargoTomlInRoot => "Has no Cargo.toml file in the root of the repository",
        CrateCase::HasHomepageButNoRepo => "Has homepage, but no repository",
        CrateCase::HasRustfmtToml => "Has rustfmt.toml file",
        CrateCase::HasDotRustfmtToml => "Has .rustfmt.toml file",
        CrateCase::HasBothRustfmtToml => "Has both rustfmt.toml and .rustfmt.toml file in the root of the repository",
        CrateCase::NoHomepageNoRepo => "No repository, no homepage",
        CrateCase::CratesWithoutOwner => "Crates without owner",
        CrateCase::CratesWithoutOwnerName => "Crates without owner name",
        CrateCase::CratesWithoutEditionOrRustVersion => "Crates without edition or rust-version",
        CrateCase::CratesWithBothEditionAndRustVersion => "Crates with both edition and rust-version",
        CrateCase::HasInterestingHomepage => "Has interesting homepage",
        CrateCase::CratesWithCargoLock => "Crates with Cargo.lock file",
        CrateCase::CratesWithoutCargoLock => "Crates without Cargo.lock file",
        CrateCase::CratesWithoutCargoLockWithoutMainRs => "Crates without Cargo.lock and without src/main.rs file",
    }
}

/// The cases of the statistics page, in the order the page lists them.
pub open spec fn all_cases() -> Seq<CrateCase> {
    seq![
        CrateCase::GithubButNoCi,
        CrateCase::GitlabButNoCi,
        CrateCase::HasCargoTomlInRoot,
        CrateCase::HasNoCargoTomlInRoot,
        CrateCase::HasHomepageButNoRepo,
        CrateCase::HasRustfmtToml,
        CrateCase::HasDotRustfmtToml,
        CrateCase::HasBothRustfmtToml,
        CrateCase::NoHomepageNoRepo,
        CrateCase::CratesWithoutOwner,
        CrateCase::CratesWithoutOwnerName,
        CrateCase::CratesWithoutEditionOrRustVersion,
        CrateCase::CratesWithBothEditionAndRustVersion,
        CrateCase::HasInterestingHomepage,
        CrateCase::CratesWithCargoLock,
        CrateCase::CratesWithoutCargoLock,
        CrateCase::CratesWithoutCargoLockWithoutMainRs,
    ]
}

/// The cases of the statistics page (see `all_cases`).
pub fn stat_cases() -> (cases: Vec<CrateCase>)
    ensures
        cases@ == all_cases(),
{
    let cases = vec![
        CrateCase::GithubButNoCi,
        CrateCase::GitlabButNoCi,
        CrateCase::HasCargoTomlInRoot,
        CrateCase::HasNoCargoTomlInRoot,
        CrateCase::HasHomepageButNoRepo,
        CrateCase::HasRustfmtToml,
        CrateCase::HasDotRustfmtToml,
        CrateCase::HasBothRustfmtToml,
        CrateCase::NoHomepageNoRepo,
        CrateCase::CratesWithoutOwner,
        CrateCase::CratesWithoutOwnerName,
        CrateCase::CratesWithoutEditionOrRustVersion,
        CrateCase::CratesWithBothEditionAndRustVersion,
        CrateCase::HasInterestingHomepage,
        CrateCase::CratesWithCargoLock,
        CrateCase::CratesWithoutCargoLock,
        CrateCase::CratesWithoutCargoLockWithoutMainRs,
    ];
    assert(cases@ =~= all_cases());
    cases
}

/// A rule that picks crates for a list page.
pub enum CrateFilter {
    /// Every crate.
    Everything,
    /// The crates of a case of the statistics page.
    Case(CrateCase),
    /// The crates without a repository.
    WithoutRepository,
    /// The crates whose repository URL starts with the given text.
    RepositoryUnder(String),
    /// The crates with a repository whose URL starts with none of the given texts.
    UnrecognizedRepository(Vec<String>),
    /// The crates whose name is one of the given names.
    NamedIn(Vec<String>),
    /// The crates whose manifest has this edition (`na` for none).
    Edition(String),
    /// The crates whose manifest has this `rust_version` (`na` for none).
    RustVersion(String),
    /// The crates whose manifest has this `rust-version` (`na` for none).
    RustDashVersion(String),
    /// The crates whose repository has GitHub Actions.
    GithubActions,
    /// The crates whose repository has a GitLab pipeline.
    GitlabPipeline,
    /// The crates whose repository has Cirrus CI.
    CirrusCi,
}

/// The views of a list of texts.
pub open spec fn texts_view(v: Vec<String>) -> Seq<Seq<char>> {
    v@.map_values(|s: String| s@)
}

/// The crate has a repository whose URL starts with none of the prefixes.
pub open spec fn unrecognized_repository(c: Crate, prefixes: Seq<Seq<char>>) -> bool {
    !(c.repository@.len() == 0 || exists|i: int|
        0 <= i < prefixes.len() && #[trigger] prefixes[i].is_prefix_of(c.repository@))
}

/// Whether a rule picks a crate.
pub open spec fn filter_holds(f: CrateFilter, c: Crate) -> bool {
    match f {
        CrateFilter::Everything => true,
        CrateFilter::Case(case) => case_holds(case, c),
        CrateFilter::WithoutRepository => c.repository@.len() == 0,
        CrateFilter::RepositoryUnder(url) => url@.is_prefix_of(c.repository@),
        CrateFilter::UnrecognizedRepository(urls) => unrecognized_repository(c, texts_view(urls)),
        CrateFilter::NamedIn(names) => texts_view(names).contains(c.name@),
        CrateFilter::Edition(v) => v@ == or_na(c.cargo.package.edition),
        CrateFilter::RustVersion(v) => v@ == or_na(c.cargo.package.rust_version),
        CrateFilter::RustDashVersion(v) => v@ == or_na(c.cargo.package.rust_dash_version),
        CrateFilter::GithubActions => c.vcs_details.has_github_action,
        CrateFilter::GitlabPipeline => c.vcs_details.has_gitlab_pipeline,
        CrateFilter::CirrusCi => c.vcs_details.has_cirrus_ci,
    }
}

fn text_in(names: &Vec<String>, name: &str) -> (r: bool)
    ensures
        r == texts_view(*names).contains(name@),
{
    let n = names.len();
    for i in 0..n
        invariant
            n == names@.len(),
            forall|j: int| 0 <= j < i ==> names@[j]@ != name@,
    {
        if text_equal(names[i].as_str(), name) {
            assert(texts_view(*names)[i as int] == name@);
            return true;
        }
    }
    proof {
        if texts_view(*names).contains(name@) {
            let j = choose|j: int| 0 <= j < texts_view(*names).len() && texts_view(*names)[j] == name@;
            assert(names@[j]@ == name@);
        }
    }
    false
}

fn starts_with_any(text: &str, prefixes: &Vec<String>) -> (r: bool)
    ensures
        r == exists|i: int| 0 <= i < prefixes@.len() && #[trigger] texts_view(*prefixes)[i].is_prefix_of(text@),
{
    let n = prefixes.len();
    for i in 0..n
        invariant
            n == prefixes@.len(),
            forall|j: int| 0 <= j < i ==> !(#[trigger] texts_view(*prefixes)[j].is_prefix_of(text@)),
    {
        if has_prefix(text, prefixes[i].as_str()) {
            assert(texts_view(*prefixes)[i as int] == prefixes@[i as int]@);
            return true;
        }
        assert(texts_view(*prefixes)[i as int] == prefixes@[i as int]@);
    }
    false
}

fn or_na_equals(value: &String, field: &Option<String>) -> (r: bool)
    ensures
        r == (value@ == or_na(*field)),
{
    match field {
        Some(s) => text_equal(value.as_str(), s.as_str()),
        None => text_equal(value.as_str(), "na"),
    }
}

/// Whether a rule picks a crate (see `filter_holds`).
pub fn crate_passes(filter: &CrateFilter, krate: &Crate) -> (r: bool)
    ensures
        r == filter_holds(*filter, *krate),
{
    match filter {
        CrateFilter::Everything => true,
        CrateFilter::Case(case) => crate_in_case(case, krate),
        CrateFilter::WithoutRepository => krate.repository.unicode_len() == 0,
        CrateFilter::RepositoryUnder(url) => has_prefix(krate.repository.as_str(), url.as_str()),
        CrateFilter::UnrecognizedRepository(urls) => !(krate.repository.unicode_len() == 0
            || starts_with_any(krate.repository.as_str(), urls)),
        CrateFilter::NamedIn(names) => text_in(names, krate.name.as_str()),
        CrateFilter::Edition(v) => or_na_equals(v, &krate.cargo.package.edition),
        CrateFilter::RustVersion(v) => or_na_equals(v, &krate.cargo.package.rust_version),
        CrateFilter::RustDashVersion(v) => or_na_equals(v, &krate.cargo.package.rust_dash_version),
        CrateFilter::GithubActions => krate.vcs_details.has_github_action,
        CrateFilter::GitlabPipeline => krate.vcs_details.has_gitlab_pipeline,
        CrateFilter::CirrusCi => krate.vcs_details.has_cirrus_ci,
    }
}

/// The positions of the crates that a rule picks, in their order.
pub open spec fn picked(crates: Seq<Crate>, filter: CrateFilter) -> Seq<usize> {
    indices_where(crates.len(), |i: int| filter_holds(filter, crates[i]))
}

/// The positions of the crates that a rule picks, in their order.
pub fn select_crates(crates: &Vec<Crate>, filter: &CrateFilter) -> (selected: Vec<usize>)
    ensures
        selected@ == picked(crates@, *filter),
{
    let n = crates.len();
    let mut selected: Vec<usize> = Vec::new();
    for i in 0..n
        invariant
            n == crates@.len(),
            selected@ == indices_where(i as nat, |k: int| filter_holds(*filter, crates@[k])),
    {
        if crate_passes(filter, &crates[i]) {
            selected.push(i);
        }
    }
    selected
}

/// A line of the statistics page.
pub struct StatEntry {
    pub path: String,
    pub title: String,
    pub count: usize,
    pub percentage: String,
}

/// The number of crates that a rule picks.
pub open spec fn count_of(crates: Seq<Crate>, filter: CrateFilter) -> nat {
    picked(crates, filter).len()
}

/// The crates whose name has an error recorded for its released manifest.
pub open spec fn with_manifest_error(crates: Seq<Crate>, errors: Map<Seq<char>, String>) -> nat {
    indices_where(crates.len(), |i: int| errors.contains_key(crates[i].name@)).len()
}

fn stat_entry(path: &str, title: &str, count: usize, total: usize) -> (e: StatEntry)
    ensures
        e.path@ == path@,
        e.title@ == title@,
        e.count == count,
        e.percentage@ == percentage_text(count as nat, total as nat),
{
    StatEntry {
        path: String::from_str(path),
        title: String::from_str(title),
        count,
        percentage: percentage(count, total),
    }
}

/// The lines of the statistics page: all crates, those without repository, those
/// whose released manifest has errors, then each case of `all_cases`, with its
/// number of crates and its share of all crates.
pub fn generate_stats(crates: &Vec<Crate>, errors: &TextMap<String>, no_repo: usize) -> (stats: Vec<StatEntry>)
    requires
        errors.wf(),
    ensures
        stats@.len() == 3 + all_cases().len(),
        stats@[0].path@ == "all"@ && stats@[0].title@ == "Total"@ && stats@[0].count == crates@.len()
            && stats@[0].percentage@ == "100%"@,
        stats@[1].path@ == "vcs/no-repo"@ && stats@[1].title@ == "No repository"@ && stats@[1].count
            == no_repo && stats@[1].percentage@ == percentage_text(no_repo as nat, crates@.len()),
        stats@[2].path@ == "has-cargo-toml-errors"@ && stats@[2].title@
            == "Has errors in the released Cargo.toml file"@ && stats@[2].count == with_manifest_error(
            crates@,
            errors.view(),
        ) && stats@[2].percentage@ == percentage_text(stats@[2].count as nat, crates@.len()),
        forall|k: int|
            0 <= k < all_cases().len() ==> {
                &&& (#[trigger] stats@[k + 3]).path@ == case_path(all_cases()[k])
                &&& stats@[k + 3].title@ == case_title(all_cases()[k])
                &&& stats@[k + 3].count == count_of(crates@, CrateFilter::Case(all_cases()[k]))
                &&& stats@[k + 3].percentage@ == percentage_text(stats@[k + 3].count as nat, crates@.len())
            },
{
    let total = crates.len();
    let mut stats: Vec<StatEntry> = Vec::new();
    stats.push(StatEntry {
        path: String::from_str("all"),
        title: String::from_str("Total"),
        count: total,
        percentage: String::from_str("100%"),
    });
    stats.push(stat_entry("vcs/no-repo", "No repository", no_repo, total));
    let mut names: Vec<String> = Vec::new();
    let entries = errors.entries();
    for i in 0..entries.len()
        invariant
            names@.len() == i,
            forall|j: int| 0 <= j < i ==> #[trigger] names@[j]@ == entries@[j].0@,
    {
        names.push(entries[i].0.clone());
    }
    proof {
        errors.lemma_entries();
        assert forall|i: int| 0 <= i < crates@.len() implies (errors.view().contains_key(crates@[i].name@)
            == filter_holds(CrateFilter::NamedIn(names), crates@[i])) by {
            let name = crates@[i].name@;
            if errors.view().contains_key(name) {
                let j = choose|j: int| 0 <= j < entries@.len() && #[trigger] entries@[j].0@ == name;
                assert(texts_view(names)[j] == name);
            }
            if texts_view(names).contains(name) {
                let j = choose|j: int| 0 <= j < texts_view(names).len() && texts_view(names)[j] == name;
                assert(names@[j]@ == entries@[j].0@);
            }
        }
        assert(picked(crates@, CrateFilter::NamedIn(names)) =~= indices_where(
            crates@.len(),
            |i: int| errors.view().contains_key(crates@[i].name@),
        )) by {
            lemma_indices_where_same(crates@.len(), |i: int| errors.view().contains_key(crates@[i].name@),
                |i: int| filter_holds(CrateFilter::NamedIn(names), crates@[i]));
        }
    }
    let with_errors = select_crates(crates, &CrateFilter::NamedIn(names)).len();
    stats.push(stat_entry("has-cargo-toml-errors", "Has errors in the released Cargo.toml file", with_errors, total));
    let cases = stat_cases();
    for k in 0..cases.len()
        invariant
            cases@ == all_cases(),
            total == crates@.len(),
            stats@.len() == 3 + k,
            stats@[0].path@ == "all"@ && stats@[0].title@ == "Total"@ && stats@[0].count == crates@.len()
                && stats@[0].percentage@ == "100%"@,
            stats@[1].path@ == "vcs/no-repo"@ && stats@[1].title@ == "No repository"@ && stats@[1].count
                == no_repo && stats@[1].percentage@ == percentage_text(no_repo as nat, crates@.len()),
            stats@[2].path@ == "has-cargo-toml-errors"@ && stats@[2].title@
                == "Has errors in the released Cargo.toml file"@ && stats@[2].count == with_manifest_error(
                crates@,
                errors.view(),
            ) && stats@[2].percentage@ == percentage_text(stats@[2].count as nat, crates@.len()),
            forall|j: int|
                0 <= j < k ==> {
                    &&& (#[trigger] stats@[j + 3]).path@ == case_path(all_cases()[j])
                    &&& stats@[j + 3].title@ == case_title(all_cases()[j])
                    &&& stats@[j + 3].count == count_of(crates@, CrateFilter::Case(all_cases()[j]))
                    &&& stats@[j + 3].percentage@ == percentage_text(stats@[j + 3].count as nat, crates@.len())
                },
    {
        let case = &cases[k];
        let count = select_crates(crates, &CrateFilter::Case(*case)).len();
        stats.push(stat_entry(case_path_of(case), case_title_of(case), count, total));
    }
    stats
}

/// Two predicates that agree below `n` pick the same indices.
pub proof fn lemma_indices_where_same(n: nat, p: spec_fn(int) -> bool, q: spec_fn(int) -> bool)
    requires
        forall|i: int| 0 <= i < n ==> #[trigger] p(i) == q(i),
    ensures
        indices_where(n, p) == indices_where(n, q),
    decreases n,
{
    if n > 0 {
        lemma_indices_where_same((n - 1) as nat, p, q);
    }
}

/// The number of crates that have a `rustfmt.toml` and of those that have a
/// `.rustfmt.toml`, added up from the lines of the statistics page.
pub open spec fn rustfmt_total(stats: Seq<StatEntry>) -> int
    decreases stats.len(),
{
    if stats.len() == 0 {
        0
    } else {
        rustfmt_total(stats.drop_last()) + if stats.last().path@ == "has-dot-rustfmt-toml"@
            || stats.last().path@ == "has-rustfmt-toml"@ {
            stats.last().count as int
        } else {
            0
        }
    }
}

/// Adds up the counts of the lines about `rustfmt.toml` and `.rustfmt.toml`.
pub fn with_rustfmt(stats: &Vec<StatEntry>) -> (sum: usize)
    requires
        rustfmt_total(stats@) <= usize::MAX,
    ensures
        sum == rustfmt_total(stats@),
{
    let mut sum: usize = 0;
    for i in 0..stats.len()
        invariant
            sum == rustfmt_total(stats@.take(i as int)),
            rustfmt_total(stats@) <= usize::MAX,
    {
        proof {
            assert(stats@.take(i + 1).drop_last() =~= stats@.take(i as int));
            lemma_rustfmt_total_prefix(stats@, i + 1);
        }
        let path = stats[i].path.as_str();
        if text_equal(path, "has-dot-rustfmt-toml") || text_equal(path, "has-rustfmt-toml") {
            sum = sum + stats[i].count;
        }
    }
    assert(stats@.take(stats@.len() as int) =~= stats@);
    sum
}

proof fn lemma_rustfmt_total_prefix(stats: Seq<StatEntry>, k: int)
    requires
        0 <= k <= stats.len(),
    ensures
        rustfmt_total(stats.take(k)) <= rustfmt_total(stats),
    decreases stats.len(),
{
    if k < stats.len() {
        assert(stats.drop_last().take(k) =~= stats.take(k));
        lemma_rustfmt_total_prefix(stats.drop_last(), k);
    } else {
        assert(stats.take(k) =~= stats);
    }
}


/// The homepage of a crate whose homepage is interesting.
pub open spec fn interesting_homepage_of(crates: Seq<Crate>, t: Seq<char>) -> bool {
    exists|i: int|
        0 <= i < crates.len() && interesting_homepage(#[trigger] crates[i])
            && crates[i].cargo.package.homepage.unwrap()@ == t
}

/// The interesting homepages of the crates, each once, in ascending order.
pub fn unique_interesting_homepages(crates: &Vec<Crate>) -> (homepages: Vec<String>)
    ensures
        strictly_ascending(texts_view(homepages)),
        forall|t: Seq<char>| texts_view(homepages).contains(t) <==> interesting_homepage_of(crates@, t),
{
    let mut seen: TextMap<bool> = TextMap::new();
    let n = crates.len();
    for i in 0..n
        invariant
            n == crates@.len(),
            seen.wf(),
            forall|t: Seq<char>| #[trigger] seen.view().contains_key(t) <==> interesting_homepage_of(crates@.take(i as int), t),
    {
        let ghost before = seen.view();
        if crate_has_interesting_homepage(&crates[i]) {
            match &crates[i].cargo.package.homepage {
                Some(h) => seen.insert(h.clone(), true),
                None => {},
            }
        }
        proof {
            let c = crates@[i as int];
            assert(crates@.take(i + 1)[i as int] == c);
            assert forall|t: Seq<char>| #[trigger] seen.view().contains_key(t) <==> interesting_homepage_of(crates@.take(i + 1), t) by {
                if interesting_homepage_of(crates@.take(i + 1), t) {
                    let j = choose|j: int| 0 <= j < i + 1 && interesting_homepage(#[trigger] crates@.take(i + 1)[j])
                        && crates@.take(i + 1)[j].cargo.package.homepage.unwrap()@ == t;
                    if j < i {
                        assert(crates@.take(i as int)[j] == crates@.take(i + 1)[j]);
                        assert(interesting_homepage_of(crates@.take(i as int), t));
                    }
                }
                if interesting_homepage_of(crates@.take(i as int), t) {
                    let j = choose|j: int| 0 <= j < i && interesting_homepage(#[trigger] crates@.take(i as int)[j])
                        && crates@.take(i as int)[j].cargo.package.homepage.unwrap()@ == t;
                    assert(crates@.take(i + 1)[j] == crates@.take(i as int)[j]);
                }
                if seen.view().contains_key(t) && !before.contains_key(t) {
                    assert(interesting_homepage(c) && c.cargo.package.homepage.unwrap()@ == t);
                }
            }
        }
    }
    assert(crates@.take(n as int) =~= crates@);
    let entries = seen.entries();
    let mut homepages: Vec<String> = Vec::new();
    for i in 0..entries.len()
        invariant
            homepages@.len() == i,
            forall|j: int| 0 <= j < i ==> #[trigger] homepages@[j]@ == entries@[j].0@,
    {
        homepages.push(entries[i].0.clone());
    }
    proof {
        seen.lemma_entries();
        assert(texts_view(homepages) =~= keys_of(seen.entry_seq()));
        assert forall|t: Seq<char>| texts_view(homepages).contains(t) <==> interesting_homepage_of(crates@, t) by {
            if seen.view().contains_key(t) {
                let j = choose|j: int| 0 <= j < seen.entry_seq().len() && #[trigger] seen.entry_seq()[j].0@ == t;
                assert(texts_view(homepages)[j] == t);
            }
            if texts_view(homepages).contains(t) {
                let j = choose|j: int| 0 <= j < texts_view(homepages).len() && texts_view(homepages)[j] == t;
                assert(seen.view().contains_key(seen.entry_seq()[j].0@));
            }
        }
    }
    homepages
}

/// The sort key of a repository host: its count, then its name in lowercase.
pub open spec fn repo_key(r: Repo) -> (int, Seq<char>) {
    (r.count as int, lowercase_of(r.name@))
}

/// `r` is the host `t` with the number and share of the crates under its URL.
pub open spec fn counted_repo(r: Repo, t: Repo, crates: Seq<Crate>) -> bool {
    &&& r == Repo { count: r.count, percentage: r.percentage, ..t }
    &&& r.count == count_of(crates, CrateFilter::RepositoryUnder(t.url))
    &&& r.percentage@ == percentage_text(r.count as nat, crates.len())
}

/// A line for a group of crates that no known host has.
pub open spec fn group_repo(r: Repo, display: Seq<char>, name: Seq<char>, count: nat, total: nat) -> bool {
    &&& r.display@ == display
    &&& r.name@ == name
    &&& r.url@.len() == 0
    &&& r.count == count
    &&& r.percentage@ == percentage_text(count, total)
    &&& r.platform is None
    &&& r.bold
}

/// The URLs of the hosts.
pub open spec fn repo_urls(types: Seq<Repo>) -> Seq<Seq<char>> {
    types.map_values(|r: Repo| r.url@)
}

/// The number of crates with a repository under none of the prefixes.
pub open spec fn unrecognized_count(crates: Seq<Crate>, prefixes: Seq<Seq<char>>) -> nat {
    indices_where(crates.len(), |i: int| unrecognized_repository(crates[i], prefixes)).len()
}

/// `lines` is the table of repository hosts: `unsorted` holds a line for each host
/// of `types` with the number and share of the crates under its URL, then one for
/// the crates whose repository no host has and one for the crates without
/// repository; `lines` holds them all, in the order `order`, which sorts them by
/// count, then by lowercase name, both descending.
pub open spec fn repo_table(
    lines: Seq<Repo>,
    unsorted: Seq<Repo>,
    order: Seq<usize>,
    types: Seq<Repo>,
    crates: Seq<Crate>,
) -> bool {
    &&& unsorted.len() == types.len() + 2
    &&& forall|j: int| 0 <= j < types.len() ==> counted_repo(#[trigger] unsorted[j], types[j], crates)
    &&& group_repo(
        unsorted[types.len() as int],
        "Other repositories we don't recognize"@,
        "other-repos"@,
        unrecognized_count(crates, repo_urls(types)),
        crates.len(),
    )
    &&& group_repo(
        unsorted[types.len() + 1int],
        "Has no repository"@,
        "no-repo"@,
        count_of(crates, CrateFilter::WithoutRepository),
        crates.len(),
    )
    &&& is_index_permutation(order, unsorted.len())
    &&& forall|i: int, j: int|
        0 <= i < j < order.len() ==> !key_less(
            repo_key(#[trigger] unsorted[order[i] as int]),
            repo_key(#[trigger] unsorted[order[j] as int]),
        )
    &&& lines == order.map_values(|i: usize| unsorted[i as int])
}

/// Counts the crates of each kind of repository host (see `repo_table`). Also gives
/// the number of crates without repository.
pub fn collect_repos(crates: &Vec<Crate>, repo_types: Vec<Repo>) -> (r: (Vec<Repo>, usize))
    ensures
        r.1 == count_of(crates@, CrateFilter::WithoutRepository),
        exists|unsorted: Seq<Repo>, order: Seq<usize>|
            #[trigger] repo_table(r.0@, unsorted, order, repo_types@, crates@),
{
    let total = crates.len();
    let no_repo_count = select_crates(crates, &CrateFilter::WithoutRepository).len();
    let mut urls: Vec<String> = Vec::new();
    for j in 0..repo_types.len()
        invariant
            urls@.len() == j,
            forall|k: int| 0 <= k < j ==> #[trigger] urls@[k]@ == repo_types@[k].url@,
    {
        urls.push(repo_types[j].url.clone());
    }
    let urls_filter = CrateFilter::UnrecognizedRepository(urls);
    let other_repo_count = select_crates(crates, &urls_filter).len();
    proof {
        assert(texts_view(urls) =~= repo_urls(repo_types@));
        lemma_indices_where_same(
            crates@.len(),
            |i: int| filter_holds(urls_filter, crates@[i]),
            |i: int| unrecognized_repository(crates@[i], repo_urls(repo_types@)),
        );
    }
    let ghost types = repo_types@;
    let n = repo_types.len();
    let mut rest: Vec<Repo> = Vec::new();
    let mut pending = repo_types;
    while pending.len() > 0
        invariant
            pending@.len() + rest@.len() == n,
            n == types.len(),
            pending@ =~= types.take(pending@.len() as int),
            forall|p: int| 0 <= p < rest@.len() ==> #[trigger] rest@[p] == types[n - 1 - p],
        decreases pending@.len(),
    {
        match pending.pop() {
            Some(t) => rest.push(t),
            None => {},
        }
        assert(pending@ =~= types.take(pending@.len() as int));
    }
    let mut repos: Vec<Repo> = Vec::new();
    while rest.len() > 0
        invariant
            n == types.len(),
            total == crates@.len(),
            rest@.len() + repos@.len() == n,
            forall|p: int| 0 <= p < rest@.len() ==> #[trigger] rest@[p] == types[n - 1 - p],
            forall|j: int| 0 <= j < repos@.len() ==> counted_repo(#[trigger] repos@[j], types[j], crates@),
        decreases rest@.len(),
    {
        match rest.pop() {
            Some(t) => {
                let count = select_crates(crates, &CrateFilter::RepositoryUnder(t.url.clone())).len();
                let mut t = t;
                t.count = count;
                t.percentage = percentage(count, total);
                repos.push(t);
            },
            None => {},
        }
    }
    repos.push(Repo {
        display: String::from_str("Other repositories we don't recognize"),
        name: String::from_str("other-repos"),
        url: String::new(),
        count: other_repo_count,
        percentage: percentage(other_repo_count, total),
        platform: None,
        bold: true,
    });
    repos.push(Repo {
        display: String::from_str("Has no repository"),
        name: String::from_str("no-repo"),
        url: String::new(),
        count: no_repo_count,
        percentage: percentage(no_repo_count, total),
        platform: None,
        bold: true,
    });
    let ghost unsorted = repos@;
    let mut keys: Vec<(u64, String)> = Vec::new();
    for j in 0..repos.len()
        invariant
            forall|i: int| 0 <= i < j ==> key_of(#[trigger] keys@[i]) == repo_key(repos@[i]),
            keys@.len() == j,
    {
        let lower = to_lowercase(repos[j].name.as_str());
        keys.push((repos[j].count as u64, lower));
    }
    let order = stable_order(&keys, true);
    let sorted = apply_order(repos, &order);
    proof {
        assert(sorted@ =~= order@.map_values(|i: usize| unsorted[i as int]));
        assert forall|i: int, j: int| 0 <= i < j < order@.len() implies !key_less(
            repo_key(#[trigger] unsorted[order@[i] as int]),
            repo_key(#[trigger] unsorted[order@[j] as int]),
        ) by {
            assert(key_of(keys@[order@[i] as int]) == repo_key(unsorted[order@[i] as int]));
            assert(key_of(keys@[order@[j] as int]) == repo_key(unsorted[order@[j] as int]));
        }
        assert(repo_table(sorted@, unsorted, order@, types, crates@));
    }
    let r = (sorted, no_repo_count);
    assert(repo_table(r.0@, unsorted, order@, repo_types@, crates@));
    r
}


/// The repository hosts that the site knows: the name it shows, the name of its
/// page and the prefix of the URLs of its repositories.
pub open spec fn known_hosts() -> Seq<(Seq<char>, Seq<char>, Seq<char>)> {
    seq![
        ("GitHub"@, "github"@, "https://github.com/"@),
        ("GitLab"@, "gitlab"@, "https://gitlab.com/"@),
        ("Codeberg"@, "codeberg"@, "https://codeberg.org/"@),
        ("Gitee"@, "gitee"@, "https://gitee.com/"@),
        ("Tor Project (GitLab)"@, "torproject"@, "https://gitlab.torproject.org/"@),
        ("Free Desktop (GitLab)"@, "freedesktop"@, "https://gitlab.freedesktop.org/"@),
        ("CERN (GitLab)"@, "cern"@, "https://gitlab.cern.ch/"@),
        ("Wikimedia (GitLab)"@, "wikimedia"@, "https://gitlab.wikimedia.org/"@),
        ("e3t"@, "e3t"@, "https://git.e3t.cc/"@),
        ("srht"@, "srht"@, "https://git.sr.ht/"@),
        ("Open Privacy"@, "openprivacy"@, "https://git.openprivacy.ca/"@),
        ("Cronce (GitLab)"@, "cronce"@, "https://gitlab.cronce.io/"@),
        ("Gnome (GitLab)"@, "gnome"@, "https://gitlab.gnome.org/"@),
        ("Repo with http"@, "repo-with-http"@, "http://"@),
        ("GitHub with www"@, "github-with-www"@, "https://www.github.com/"@),
    ]
}

/// A line of the table of hosts, not counted yet: no crates, a share of `0`, no
/// platform, not bold.
pub open spec fn fresh_host_line(r: Repo, host: (Seq<char>, Seq<char>, Seq<char>)) -> bool {
    &&& r.display@ == host.0
    &&& r.name@ == host.1
    &&& r.url@ == host.2
    &&& r.count == 0
    &&& r.percentage@ == "0"@
    &&& r.platform is None
    &&& !r.bold
}

fn host_line(display: &str, name: &str, url: &str) -> (r: Repo)
    ensures
        fresh_host_line(r, (display@, name@, url@)),
{
    Repo {
        display: String::from_str(display),
        name: String::from_str(name),
        url: String::from_str(url),
        count: 0,
        percentage: String::from_str("0"),
        platform: None,
        bold: false,
    }
}

/// The repository hosts that the site knows (see `known_hosts`), not counted yet.
pub fn get_repo_types() -> (repos: Vec<Repo>)
    ensures
        repos@.len() == known_hosts().len(),
        forall|i: int| 0 <= i < repos@.len() ==> fresh_host_line(#[trigger] repos@[i], known_hosts()[i]),
{
    let mut repos: Vec<Repo> = Vec::new();
    repos.push(host_line("GitHub", "github", "https://github.com/"));
    repos.push(host_line("GitLab", "gitlab", "https://gitlab.com/"));
    repos.push(host_line("Codeberg", "codeberg", "https://codeberg.org/"));
    repos.push(host_line("Gitee", "gitee", "https://gitee.com/"));
    repos.push(host_line("Tor Project (GitLab)", "torproject", "https://gitlab.torproject.org/"));
    repos.push(host_line("Free Desktop (GitLab)", "freedesktop", "https://gitlab.freedesktop.org/"));
    repos.push(host_line("CERN (GitLab)", "cern", "https://gitlab.cern.ch/"));
    repos.push(host_line("Wikimedia (GitLab)", "wikimedia", "https://gitlab.wikimedia.org/"));
    repos.push(host_line("e3t", "e3t", "https://git.e3t.cc/"));
    repos.push(host_line("srht", "srht", "https://git.sr.ht/"));
    repos.push(host_line("Open Privacy", "openprivacy", "https://git.openprivacy.ca/"));
    repos.push(host_line("Cronce (GitLab)", "cronce", "https://gitlab.cronce.io/"));
    repos.push(host_line("Gnome (GitLab)", "gnome", "https://gitlab.gnome.org/"));
    repos.push(host_line("Repo with http", "repo-with-http", "http://"));
    repos.push(host_line("GitHub with www", "github-with-www", "https://www.github.com/"));
    repos
}


/// The address on the site of a page written under `_site`: its path without
/// `_site` in front and `.html` at the end, where an `index` page stands for its
/// folder, with the `/` that ends the folder kept.
pub open spec fn page_address(path: Seq<char>) -> Seq<char> {
    let mid = path.subrange(5, path.len() - 5);
    if mid.len() >= 6 && mid.subrange(mid.len() - 6, mid.len() as int) == "/index"@ {
        mid.subrange(0, mid.len() - 5)
    } else {
        mid
    }
}

/// The address on the site of a page written under `_site` (see `page_address`).
pub fn page_address_of(path: &str) -> (address: String)
    requires
        "_site"@.is_prefix_of(path@),
        path@.len() >= 10,
        path@.subrange(path@.len() - 5, path@.len() as int) == ".html"@,
    ensures
        address@ == page_address(path@),
{
    let n = path.unicode_len();
    let mid = path.substring_char(5, n - 5);
    let m = n - 10;
    proof {
        reveal_strlit("/index");
    }
    if m >= 6 && text_equal(mid.substring_char(m - 6, m), "/index") {
        String::from_str(mid.substring_char(0, m - 5))
    } else {
        String::from_str(mid)
    }
}


/// For indices below `n` where exactly one of three predicates holds, the indices
/// of the three add up to `n`.
pub proof fn lemma_indices_where_three(
    n: nat,
    p: spec_fn(int) -> bool,
    q: spec_fn(int) -> bool,
    r: spec_fn(int) -> bool,
)
    requires
        forall|i: int|
            0 <= i < n ==> (#[trigger] p(i) && !q(i) && !r(i)) || (!p(i) && q(i) && !r(i)) || (!p(i)
                && !q(i) && r(i)),
    ensures
        indices_where(n, p).len() + indices_where(n, q).len() + indices_where(n, r).len() == n,
    decreases n,
{
    if n > 0 {
        lemma_indices_where_three((n - 1) as nat, p, q, r);
        assert(p(n - 1) || q(n - 1) || r(n - 1));
    }
}

/// The crate has a repository under one of the prefixes.
pub open spec fn recognized_repository(c: Crate, prefixes: Seq<Seq<char>>) -> bool {
    c.repository@.len() > 0 && exists|i: int| 0 <= i < prefixes.len() && #[trigger] prefixes[i].is_prefix_of(c.repository@)
}

/// The number of crates with a repository under one of the prefixes.
pub open spec fn recognized_count(crates: Seq<Crate>, prefixes: Seq<Seq<char>>) -> nat {
    indices_where(crates.len(), |i: int| recognized_repository(crates[i], prefixes)).len()
}

/// Each crate is in exactly one group of the table of hosts: without repository,
/// with a repository that none of the known URLs starts, or under a known URL; so
/// the crates without repository, those of no known host and those of some known
/// host add up to all crates.
pub proof fn lemma_repo_groups_add_up(crates: Seq<Crate>, prefixes: Seq<Seq<char>>)
    ensures
        count_of(crates, CrateFilter::WithoutRepository) + unrecognized_count(crates, prefixes)
            + recognized_count(crates, prefixes) == crates.len(),
{
    let p = |i: int| filter_holds(CrateFilter::WithoutRepository, crates[i]);
    let q = |i: int| unrecognized_repository(crates[i], prefixes);
    let r = |i: int| recognized_repository(crates[i], prefixes);
    lemma_indices_where_three(crates.len(), p, q, r);
}


/// One more crate adds one to the number of crates that a rule picks exactly when
/// the rule picks that crate, and nothing otherwise.
pub proof fn lemma_count_of_push(crates: Seq<Crate>, c: Crate, filter: CrateFilter)
    ensures
        count_of(crates.push(c), filter) == count_of(crates, filter) + if filter_holds(filter, c) {
            1int
        } else {
            0int
        },
{
    let all = crates.push(c);
    let p = |i: int| filter_holds(filter, all[i]);
    let q = |i: int| filter_holds(filter, crates[i]);
    assert forall|i: int| 0 <= i < crates.len() implies #[trigger] p(i) == q(i) by {
        assert(all[i] == crates[i]);
    }
    lemma_indices_where_same(crates.len(), p, q);
    assert(all[crates.len() as int] == c);
    assert(count_of(all, filter) == indices_where(all.len(), p).len());
    assert(count_of(crates, filter) == indices_where(crates.len(), q).len());
}

/// The line of crates with both an edition and a rust-version counts a crate exactly
/// when its manifest declares an edition and also declares a rust-version: one more
/// crate adds one to it then, and nothing where it lacks either.
pub proof fn lemma_both_edition_and_rust_version_counted(crates: Seq<Crate>, c: Crate)
    ensures
        count_of(crates.push(c), CrateFilter::Case(CrateCase::CratesWithBothEditionAndRustVersion))
            == count_of(crates, CrateFilter::Case(CrateCase::CratesWithBothEditionAndRustVersion))
            + if c.cargo.package.edition is Some && c.cargo.package.rust_dash_version is Some {
            1int
        } else {
            0int
        },
{
    lemma_count_of_push(crates, c, CrateFilter::Case(CrateCase::CratesWithBothEditionAndRustVersion));
}

/// The lines of crates with a `rustfmt.toml` and of crates with a `.rustfmt.toml`:
/// one more crate adds one to the first where its repository has a
/// `rustfmt.toml`, and one to the second where it has a `.rustfmt.toml`, so a crate
/// with only a `.rustfmt.toml` adds one to their sum.
pub proof fn lemma_rustfmt_files_counted(crates: Seq<Crate>, c: Crate)
    ensures
        count_of(crates.push(c), CrateFilter::Case(CrateCase::HasRustfmtToml)) == count_of(
            crates,
            CrateFilter::Case(CrateCase::HasRustfmtToml),
        ) + if c.vcs_details.has_rustfmt_toml { 1int } else { 0int },
        count_of(crates.push(c), CrateFilter::Case(CrateCase::HasDotRustfmtToml)) == count_of(
            crates,
            CrateFilter::Case(CrateCase::HasDotRustfmtToml),
        ) + if c.vcs_details.has_dot_rustfmt_toml { 1int } else { 0int },
{
    lemma_count_of_push(crates, c, CrateFilter::Case(CrateCase::HasRustfmtToml));
    lemma_count_of_push(crates, c, CrateFilter::Case(CrateCase::HasDotRustfmtToml));
}

/// A crate whose homepage starts with `https://github.com/`, `http://github.com/`,
/// `https://gitlab.com/`, `https://crates.io/`, `https://docs.rs/` or
/// `https://libs.rs/` never has an interesting homepage; a crate with a homepage
/// that starts with none of them always has one.
pub proof fn lemma_interesting_homepage_prefixes(c: Crate)
    ensures
        interesting_homepage(c) <==> (c.cargo.package.homepage is Some && {
            let h = c.cargo.package.homepage.unwrap()@;
            &&& !("https://github.com/"@.is_prefix_of(h))
            &&& !("http://github.com/"@.is_prefix_of(h))
            &&& !("https://gitlab.com/"@.is_prefix_of(h))
            &&& !("https://crates.io/"@.is_prefix_of(h))
            &&& !("https://docs.rs/"@.is_prefix_of(h))
            &&& !("https://libs.rs/"@.is_prefix_of(h))
        }),
{
}

/// The list of interesting homepages holds a text exactly when some crate has it as
/// its homepage and it starts with none of `https://github.com/`,
/// `http://github.com/`, `https://gitlab.com/`, `https://crates.io/`,
/// `https://docs.rs/` and `https://libs.rs/`.
pub proof fn lemma_interesting_homepages_listed(crates: Seq<Crate>, t: Seq<char>)
    ensures
        interesting_homepage_of(crates, t) <==> {
            &&& exists|i: int|
                0 <= i < crates.len() && (#[trigger] crates[i]).cargo.package.homepage is Some
                    && crates[i].cargo.package.homepage.unwrap()@ == t
            &&& !("https://github.com/"@.is_prefix_of(t))
            &&& !("http://github.com/"@.is_prefix_of(t))
            &&& !("https://gitlab.com/"@.is_prefix_of(t))
            &&& !("https://crates.io/"@.is_prefix_of(t))
            &&& !("https://docs.rs/"@.is_prefix_of(t))
            &&& !("https://libs.rs/"@.is_prefix_of(t))
        },
{
    if interesting_homepage_of(crates, t) {
        let i = choose|i: int|
            0 <= i < crates.len() && interesting_homepage(#[trigger] crates[i])
                && crates[i].cargo.package.homepage.unwrap()@ == t;
        lemma_interesting_homepage_prefixes(crates[i]);
    }
    if exists|i: int|
        0 <= i < crates.len() && (#[trigger] crates[i]).cargo.package.homepage is Some
            && crates[i].cargo.package.homepage.unwrap()@ == t {
        let i = choose|i: int|
            0 <= i < crates.len() && (#[trigger] crates[i]).cargo.package.homepage is Some
                && crates[i].cargo.package.homepage.unwrap()@ == t;
        lemma_interesting_homepage_prefixes(crates[i]);
    }
}


/// Whether a line of the statistics page is about `rustfmt.toml` or `.rustfmt.toml`.
spec fn rustfmt_line(e: StatEntry) -> bool {
    e.path@ == "has-dot-rustfmt-toml"@ || e.path@ == "has-rustfmt-toml"@
}

proof fn lemma_rustfmt_total_add(a: Seq<StatEntry>, b: Seq<StatEntry>)
    ensures
        rustfmt_total(a + b) == rustfmt_total(a) + rustfmt_total(b),
    decreases b.len(),
{
    if b.len() > 0 {
        lemma_rustfmt_total_add(a, b.drop_last());
        assert((a + b).drop_last() =~= a + b.drop_last());
        assert((a + b).last() == b.last());
    } else {
        assert(a + b =~= a);
    }
}

proof fn lemma_rustfmt_total_none(stats: Seq<StatEntry>)
    requires
        forall|j: int| 0 <= j < stats.len() ==> !rustfmt_line(#[trigger] stats[j]),
    ensures
        rustfmt_total(stats) == 0,
    decreases stats.len(),
{
    if stats.len() > 0 {
        let rest = stats.drop_last();
        assert forall|j: int| 0 <= j < rest.len() implies !rustfmt_line(#[trigger] rest[j]) by {
            assert(rest[j] == stats[j]);
        }
        lemma_rustfmt_total_none(rest);
        assert(!rustfmt_line(stats[stats.len() - 1]));
    }
}

proof fn lemma_not_rustfmt_line(e: StatEntry)
    requires
        (e.path@.len() != 16 && e.path@.len() != 20) || (e.path@.len() > 0 && e.path@[0] != 'h'),
    ensures
        !rustfmt_line(e),
{
    reveal_strlit("has-rustfmt-toml");
    reveal_strlit("has-dot-rustfmt-toml");
    assert("has-rustfmt-toml"@.len() == 16 && "has-rustfmt-toml"@[0] == 'h');
    assert("has-dot-rustfmt-toml"@.len() == 20 && "has-dot-rustfmt-toml"@[0] == 'h');
}

/// On the lines of the statistics page, the number of crates with `rustfmt`
/// settings is the number of crates with a `rustfmt.toml` plus the number of
/// crates with a `.rustfmt.toml`.
pub proof fn lemma_rustfmt_total_of_stats(crates: Seq<Crate>, stats: Seq<StatEntry>)
    requires
        stats.len() == 3 + all_cases().len(),
        stats[0].path@ == "all"@,
        stats[1].path@ == "vcs/no-repo"@,
        stats[2].path@ == "has-cargo-toml-errors"@,
        forall|k: int|
            0 <= k < all_cases().len() ==> (#[trigger] stats[k + 3]).path@ == case_path(all_cases()[k])
                && stats[k + 3].count == count_of(crates, CrateFilter::Case(all_cases()[k])),
    ensures
        rustfmt_total(stats) == count_of(crates, CrateFilter::Case(CrateCase::HasRustfmtToml)) + count_of(
            crates,
            CrateFilter::Case(CrateCase::HasDotRustfmtToml),
        ),
{
    reveal_strlit("all");
    reveal_strlit("vcs/no-repo");
    reveal_strlit("has-cargo-toml-errors");
    reveal_strlit("github-but-no-ci");
    reveal_strlit("gitlab-but-no-ci");
    reveal_strlit("has-cargo-toml-in-root");
    reveal_strlit("has-no-cargo-toml-in-root");
    reveal_strlit("has-homepage-but-no-repo");
    reveal_strlit("has-rustfmt-toml");
    reveal_strlit("has-dot-rustfmt-toml");
    reveal_strlit("has-both-rustfmt-toml");
    reveal_strlit("no-homepage-no-repo");
    reveal_strlit("crates-without-owner");
    reveal_strlit("crates-without-owner-name");
    reveal_strlit("crates-without-edition-or-rust-version");
    reveal_strlit("crates-with-both-edition-and-rust-version");
    reveal_strlit("has-interesting-homepage");
    reveal_strlit("crates-with-cargo-lock");
    reveal_strlit("crates-without-cargo-lock");
    reveal_strlit("crates-without-cargo-lock-without-main-rs");
    let cases = all_cases();
    assert(stats[0].path@.len() == 3);
    lemma_not_rustfmt_line(stats[0]);
    assert(stats[1].path@.len() == 11);
    lemma_not_rustfmt_line(stats[1]);
    assert(stats[2].path@.len() == 21);
    lemma_not_rustfmt_line(stats[2]);
    assert(cases[0] == CrateCase::GithubButNoCi);
    assert(stats[0int + 3].path@ == "github-but-no-ci"@);
    assert(stats[3].path@.len() == 16);
    assert(stats[3].path@[0] == 'g');
    lemma_not_rustfmt_line(stats[3]);
    assert(cases[1] == CrateCase::GitlabButNoCi);
    assert(stats[1int + 3].path@ == "gitlab-but-no-ci"@);
    assert(stats[4].path@.len() == 16);
    assert(stats[4].path@[0] == 'g');
    lemma_not_rustfmt_line(stats[4]);
    assert(cases[2] == CrateCase::HasCargoTomlInRoot);
    assert(stats[2int + 3].path@ == "has-cargo-toml-in-root"@);
    assert(stats[5].path@.len() == 22);
    lemma_not_rustfmt_line(stats[5]);
    assert(cases[3] == CrateCase::HasNoCargoTomlInRoot);
    assert(stats[3int + 3].path@ == "has-no-cargo-toml-in-root"@);
    assert(stats[6].path@.len() == 25);
    lemma_not_rustfmt_line(stats[6]);
    assert(cases[4] == CrateCase::HasHomepageButNoRepo);
    assert(stats[4int + 3].path@ == "has-homepage-but-no-repo"@);
    assert(stats[7].path@.len() == 24);
    lemma_not_rustfmt_line(stats[7]);
    assert(cases[5] == CrateCase::HasRustfmtToml);
    assert(stats[5int + 3].path@ == "has-rustfmt-toml"@);
    assert(cases[6] == CrateCase::HasDotRustfmtToml);
    assert(stats[6int + 3].path@ == "has-dot-rustfmt-toml"@);
    assert(cases[7] == CrateCase::HasBothRustfmtToml);
    assert(stats[7int + 3].path@ == "has-both-rustfmt-toml"@);
    assert(stats[10].path@.len() == 21);
    lemma_not_rustfmt_line(stats[10]);
    assert(cases[8] == CrateCase::NoHomepageNoRepo);
    assert(stats[8int + 3].path@ == "no-homepage-no-repo"@);
    assert(stats[11].path@.len() == 19);
    lemma_not_rustfmt_line(stats[11]);
    assert(cases[9] == CrateCase::CratesWithoutOwner);
    assert(stats[9int + 3].path@ == "crates-without-owner"@);
    assert(stats[12].path@.len() == 20);
    assert(stats[12].path@[0] == 'c');
    lemma_not_rustfmt_line(stats[12]);
    assert(cases[10] == CrateCase::CratesWithoutOwnerName);
    assert(stats[10int + 3].path@ == "crates-without-owner-name"@);
    assert(stats[13].path@.len() == 25);
    lemma_not_rustfmt_line(stats[13]);
    assert(cases[11] == CrateCase::CratesWithoutEditionOrRustVersion);
    assert(stats[11int + 3].path@ == "crates-without-edition-or-rust-version"@);
    assert(stats[14].path@.len() == 38);
    lemma_not_rustfmt_line(stats[14]);
    assert(cases[12] == CrateCase::CratesWithBothEditionAndRustVersion);
    assert(stats[12int + 3].path@ == "crates-with-both-edition-and-rust-version"@);
    assert(stats[15].path@.len() == 41);
    lemma_not_rustfmt_line(stats[15]);
    assert(cases[13] == CrateCase::HasInterestingHomepage);
    assert(stats[13int + 3].path@ == "has-interesting-homepage"@);
    assert(stats[16].path@.len() == 24);
    lemma_not_rustfmt_line(stats[16]);
    assert(cases[14] == CrateCase::CratesWithCargoLock);
    assert(stats[14int + 3].path@ == "crates-with-cargo-lock"@);
    assert(stats[17].path@.len() == 22);
    lemma_not_rustfmt_line(stats[17]);
    assert(cases[15] == CrateCase::CratesWithoutCargoLock);
    assert(stats[15int + 3].path@ == "crates-without-cargo-lock"@);
    assert(stats[18].path@.len() == 25);
    lemma_not_rustfmt_line(stats[18]);
    assert(cases[16] == CrateCase::CratesWithoutCargoLockWithoutMainRs);
    assert(stats[16int + 3].path@ == "crates-without-cargo-lock-without-main-rs"@);
    assert(stats[19].path@.len() == 41);
    lemma_not_rustfmt_line(stats[19]);
    assert forall|j: int| 0 <= j < stats.len() && j != 8 && j != 9 implies !rustfmt_line(#[trigger] stats[j]) by {
        assert(0 <= j < 20);
    }
    let head = stats.take(8);
    let mid = stats.subrange(8, 10);
    let tail = stats.subrange(10, stats.len() as int);
    assert(stats =~= head + mid + tail);
    assert forall|j: int| 0 <= j < head.len() implies !rustfmt_line(#[trigger] head[j]) by {
        assert(head[j] == stats[j]);
        assert(!rustfmt_line(stats[j]));
    }
    assert forall|j: int| 0 <= j < tail.len() implies !rustfmt_line(#[trigger] tail[j]) by {
        assert(tail[j] == stats[j + 10]);
        assert(!rustfmt_line(stats[j + 10]));
    }
    lemma_rustfmt_total_none(head);
    lemma_rustfmt_total_none(tail);
    lemma_rustfmt_total_add(head + mid, tail);
    lemma_rustfmt_total_add(head, mid);
    assert(mid.drop_last().drop_last() =~= Seq::<StatEntry>::empty());
    assert(mid.drop_last().last() == stats[8]);
    assert(mid.last() == stats[9]);
    assert(rustfmt_line(stats[8]));
    assert(rustfmt_line(stats[9]));
    let one = mid.drop_last();
    assert(one.drop_last() =~= Seq::<StatEntry>::empty());
    assert(rustfmt_total(one.drop_last()) == 0);
    assert(one.last() == stats[8]);
    assert(rustfmt_total(one) == stats[8].count);
    assert(rustfmt_total(mid) == stats[8].count + stats[9].count);
    assert(rustfmt_total(stats) == rustfmt_total(head + mid) + rustfmt_total(tail));
}


/// The most crates that a list page shows.
pub const PAGE_SIZE: usize = 200;

/// The number of crates that a list page of `total` crates shows: all of them, up
/// to `PAGE_SIZE`.
pub fn list_page_size(total: usize) -> (shown: usize)
    ensures
        shown == if total > PAGE_SIZE { PAGE_SIZE } else { total },
{
    if total > PAGE_SIZE {
        PAGE_SIZE
    } else {
        total
    }
}

} // verus!
