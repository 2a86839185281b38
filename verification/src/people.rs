//! The pages of the users: which crates each user's page lists, in which order,
//! with which problems, and the list of the users that own crates.

use vstd::prelude::*;

use crate::common::{lowercase_of, to_lowercase};
use crate::crates::{lemma_filter_push, Crate, User};
use crate::order::{apply_order, is_index_permutation, is_stable_order, stable_order};
use crate::pages::indices_where;
use crate::paths::{build_path, built_path, get_site_folder};
use crate::text::{has_prefix, text_less};
use crate::text_map::{map_of_pairs, TextMap};

verus! {

/// The pairs of crate ids and positions of crates.
pub open spec fn crate_id_pairs(crates: Seq<Crate>) -> Seq<(Seq<char>, usize)> {
    crates.map(|i: int, c: Crate| (c.id@, i as usize))
}

/// The position of each crate by its id; where ids repeat, the last crate counts.
pub fn index_crates_by_id(crates: &Vec<Crate>) -> (by_id: TextMap<usize>)
    ensures
        by_id.wf(),
        by_id.view() == map_of_pairs(crate_id_pairs(crates@)),
        forall|key: Seq<char>| #[trigger] by_id.view().contains_key(key) ==> by_id.view()[key] < crates@.len(),
{
    let mut by_id: TextMap<usize> = TextMap::new();
    let n = crates.len();
    for k in 0..n
        invariant
            n == crates@.len(),
            by_id.wf(),
            by_id.view() == map_of_pairs(crate_id_pairs(crates@).take(k as int)),
            forall|key: Seq<char>| #[trigger] by_id.view().contains_key(key) ==> by_id.view()[key] < k,
    {
        by_id.insert(crates[k].id.clone(), k);
        proof {
            let pairs = crate_id_pairs(crates@);
            assert(pairs.take(k + 1).drop_last() =~= pairs.take(k as int));
        }
    }
    proof {
        assert(crate_id_pairs(crates@).take(n as int) =~= crate_id_pairs(crates@));
    }
    by_id
}

/// The positions that a list of crate ids leads to, in the order of the list; ids
/// of no known crate are left out.
pub open spec fn known_positions(ids: Seq<String>, by_id: Map<Seq<char>, usize>) -> Seq<usize>
    decreases ids.len(),
{
    if ids.len() == 0 {
        Seq::empty()
    } else {
        let rest = known_positions(ids.drop_last(), by_id);
        if by_id.contains_key(ids.last()@) {
            rest.push(by_id[ids.last()@])
        } else {
            rest
        }
    }
}

proof fn lemma_known_positions_bounded(ids: Seq<String>, by_id: Map<Seq<char>, usize>, n: nat)
    requires
        forall|key: Seq<char>| #[trigger] by_id.contains_key(key) ==> by_id[key] < n,
    ensures
        forall|j: int| 0 <= j < known_positions(ids, by_id).len() ==> #[trigger] known_positions(ids, by_id)[j] < n,
    decreases ids.len(),
{
    if ids.len() > 0 {
        let rest = known_positions(ids.drop_last(), by_id);
        lemma_known_positions_bounded(ids.drop_last(), by_id, n);
        assert forall|j: int| 0 <= j < known_positions(ids, by_id).len() implies #[trigger] known_positions(ids, by_id)[j] < n by {
            if j < rest.len() {
                assert(known_positions(ids, by_id)[j] == rest[j]);
            } else {
                assert(by_id.contains_key(ids.last()@));
            }
        }
    }
}

/// The positions of the crates with the given ids (see `known_positions`).
pub fn crates_of_ids(ids: &Vec<String>, by_id: &TextMap<usize>) -> (positions: Vec<usize>)
    requires
        by_id.wf(),
    ensures
        positions@ == known_positions(ids@, by_id.view()),
{
    let mut positions: Vec<usize> = Vec::new();
    let n = ids.len();
    for i in 0..n
        invariant
            n == ids@.len(),
            by_id.wf(),
            positions@ == known_positions(ids@.take(i as int), by_id.view()),
    {
        proof {
            assert(ids@.take(i + 1).drop_last() =~= ids@.take(i as int));
        }
        match by_id.get(ids[i].as_str()) {
            Some(p) => positions.push(*p),
            None => {},
        }
    }
    assert(ids@.take(n as int) =~= ids@);
    positions
}

/// The sort keys of the crates at the given positions by the time of their last
/// update.
pub open spec fn update_keys_at(crates: Seq<Crate>, positions: Seq<usize>) -> Seq<(u64, String)> {
    positions.map_values(|p: usize| (0u64, crates[p as int].updated_at))
}

/// `sorted` holds the positions, the most recently updated crate first; crates
/// updated at the same time keep their order.
pub open spec fn newest_first_order(crates: Seq<Crate>, positions: Seq<usize>, sorted: Seq<usize>) -> bool {
    exists|order: Seq<usize>|
        #[trigger] is_stable_order(update_keys_at(crates, positions), order, true) && sorted
            == order.map_values(|i: usize| positions[i as int])
}

/// Orders positions of crates by the time of their last update, newest first (see
/// `newest_first_order`).
pub fn newest_positions_first(crates: &Vec<Crate>, positions: Vec<usize>) -> (sorted: Vec<usize>)
    requires
        forall|j: int| 0 <= j < positions@.len() ==> #[trigger] positions@[j] < crates@.len(),
    ensures
        newest_first_order(crates@, positions@, sorted@),
{
    let mut keys: Vec<(u64, String)> = Vec::new();
    for i in 0..positions.len()
        invariant
            forall|j: int| 0 <= j < positions@.len() ==> #[trigger] positions@[j] < crates@.len(),
            keys@ =~= update_keys_at(crates@, positions@).take(i as int),
    {
        keys.push((0, crates[positions[i]].updated_at.clone()));
        assert(keys@ =~= update_keys_at(crates@, positions@).take(i + 1));
    }
    assert(keys@ =~= update_keys_at(crates@, positions@));
    let order = stable_order(&keys, true);
    let ghost initial = positions@;
    let sorted = apply_order(positions, &order);
    assert(sorted@ =~= order@.map_values(|i: usize| initial[i as int]));
    assert(is_stable_order(update_keys_at(crates@, initial), order@, true));
    sorted
}

/// A problem that a user's page points out in the user's crates.
#[derive(Clone, Copy, PartialEq, Eq, Structural)]
pub enum Problem {
    /// The repository URL uses `http://`.
    VcsWithHttp,
    /// The repository URL starts with `https://www.github.com`.
    VcsWithWww,
    /// The repository has both `rustfmt.toml` and `.rustfmt.toml`.
    BothRustfmt,
    /// The released manifest of the crate has errors.
    CargoTomlErrors,
}

/// Whether a crate has a problem; `errors` are the manifest errors by crate name.
pub open spec fn has_problem(problem: Problem, c: Crate, errors: Map<Seq<char>, String>) -> bool {
    match problem {
        Problem::VcsWithHttp => c.repository@.len() > 0 && "http://"@.is_prefix_of(c.repository@),
        Problem::VcsWithWww => c.repository@.len() > 0 && "https://www.github.com"@.is_prefix_of(
            c.repository@,
        ),
        Problem::BothRustfmt => c.vcs_details.has_rustfmt_toml && c.vcs_details.has_dot_rustfmt_toml,
        Problem::CargoTomlErrors => errors.contains_key(c.name@),
    }
}

/// Whether a crate has a problem (see `has_problem`).
pub fn crate_has_problem(problem: Problem, krate: &Crate, errors: &TextMap<String>) -> (r: bool)
    requires
        errors.wf(),
    ensures
        r == has_problem(problem, *krate, errors.view()),
{
    match problem {
        Problem::VcsWithHttp => krate.repository.unicode_len() > 0 && has_prefix(
            krate.repository.as_str(),
            "http://",
        ),
        Problem::VcsWithWww => krate.repository.unicode_len() > 0 && has_prefix(
            krate.repository.as_str(),
            "https://www.github.com",
        ),
        Problem::BothRustfmt => krate.vcs_details.has_rustfmt_toml
            && krate.vcs_details.has_dot_rustfmt_toml,
        Problem::CargoTomlErrors => errors.contains_key(krate.name.as_str()),
    }
}

/// The positions of the crates that have the problem, in their order.
pub open spec fn with_problem(
    crates: Seq<Crate>,
    positions: Seq<usize>,
    problem: Problem,
    errors: Map<Seq<char>, String>,
) -> Seq<usize> {
    positions.filter(|p: usize| has_problem(problem, crates[p as int], errors))
}

/// The positions of the crates that have the problem (see `with_problem`).
pub fn crates_with_problem(
    crates: &Vec<Crate>,
    positions: &Vec<usize>,
    problem: Problem,
    errors: &TextMap<String>,
) -> (found: Vec<usize>)
    requires
        errors.wf(),
        forall|j: int| 0 <= j < positions@.len() ==> #[trigger] positions@[j] < crates@.len(),
    ensures
        found@ == with_problem(crates@, positions@, problem, errors.view()),
{
    let mut found: Vec<usize> = Vec::new();
    let n = positions.len();
    for i in 0..n
        invariant
            n == positions@.len(),
            errors.wf(),
            forall|j: int| 0 <= j < positions@.len() ==> #[trigger] positions@[j] < crates@.len(),
            found@ == with_problem(crates@, positions@.take(i as int), problem, errors.view()),
    {
        let p = positions[i];
        proof {
            assert(positions@.take(i + 1) =~= positions@.take(i as int).push(p));
            lemma_filter_push(
                positions@.take(i as int),
                p,
                |q: usize| has_problem(problem, crates@[q as int], errors.view()),
            );
        }
        if crate_has_problem(problem, &crates[p], errors) {
            found.push(p);
        }
    }
    assert(positions@.take(n as int) =~= positions@);
    found
}

/// A character lowered as `char::to_ascii_lowercase` does.
fn lower_ascii_char(c: char) -> (r: char)
    ensures
        r == crate::common::ascii_lower_char(c),
{
    if 'A' <= c && c <= 'Z' {
        let b: u8 = (c as u8) + 32;
        b as char
    } else {
        c
    }
}

/// The text with `A`..`Z` mapped to `a`..`z` and every other character kept, as
/// `str::to_ascii_lowercase` gives it.
fn to_ascii_lowercase(text: &str) -> (lowered: String)
    ensures
        lowered@ == text@.map_values(|c: char| crate::common::ascii_lower_char(c)),
{
    let n = text.unicode_len();
    let mut lowered = String::new();
    for i in 0..n
        invariant
            n == text@.len(),
            lowered@ =~= text@.take(i as int).map_values(|c: char| crate::common::ascii_lower_char(c)),
    {
        let c = lower_ascii_char(text.get_char(i));
        crate::text::push_char(&mut lowered, c);
        assert(text@.take(i + 1) =~= text@.take(i as int).push(text@[i as int]));
    }
    assert(text@.take(n as int) =~= text@);
    lowered
}

/// A crate is listed among those with both `rustfmt.toml` and `.rustfmt.toml`
/// exactly when its repository has a `rustfmt.toml` and also has a
/// `.rustfmt.toml`: one more position adds it to the list then, and never where
/// the repository has only one of the two files.
pub proof fn lemma_both_rustfmt_listed(
    crates: Seq<Crate>,
    positions: Seq<usize>,
    p: usize,
    errors: Map<Seq<char>, String>,
)
    ensures
        with_problem(crates, positions.push(p), Problem::BothRustfmt, errors) == if crates[p as int].vcs_details.has_rustfmt_toml
            && crates[p as int].vcs_details.has_dot_rustfmt_toml {
            with_problem(crates, positions, Problem::BothRustfmt, errors).push(p)
        } else {
            with_problem(crates, positions, Problem::BothRustfmt, errors)
        },
{
    lemma_filter_push(positions, p, |q: usize| has_problem(Problem::BothRustfmt, crates[q as int], errors));
}

/// The page of a user: the user (by position in the list of users), the file it is
/// written to, the positions of the user's crates, and those of the crates with
/// each problem.
pub struct UserPage {
    pub user: usize,
    pub file: String,
    pub crates: Vec<usize>,
    pub vcs_with_http: Vec<usize>,
    pub vcs_with_www: Vec<usize>,
    pub both_rustfmt: Vec<usize>,
    pub cargo_toml_errors: Vec<usize>,
}

/// The file of the page of a user: `_site/users/<login in ASCII lowercase>.html`.
pub open spec fn user_page_file(login: Seq<char>) -> Seq<char> {
    built_path(
        "_site"@,
        seq!["users"@, login.map_values(|c: char| crate::common::ascii_lower_char(c))],
        Some("html"@),
    )
}

/// The positions of the crates of a user that the ownership index lists: the ids
/// listed for the user, each led to its crate.
pub open spec fn user_crates(
    user: User,
    crates: Seq<Crate>,
    crates_by_owner: Map<Seq<char>, Vec<String>>,
) -> Seq<usize> {
    known_positions(crates_by_owner[user.id@]@, map_of_pairs(crate_id_pairs(crates)))
}

/// `page` is the page of the user at position `u`, who is listed as an owner.
pub open spec fn user_page_fits(
    page: UserPage,
    u: int,
    user: User,
    crates: Seq<Crate>,
    crates_by_owner: Map<Seq<char>, Vec<String>>,
    errors: Map<Seq<char>, String>,
) -> bool {
    let listed = page.crates@;
    &&& page.user == u
    &&& page.file@ == user_page_file(user.gh_login@)
    &&& newest_first_order(crates, user_crates(user, crates, crates_by_owner), listed)
    &&& page.vcs_with_http@ == with_problem(crates, listed, Problem::VcsWithHttp, errors)
    &&& page.vcs_with_www@ == with_problem(crates, listed, Problem::VcsWithWww, errors)
    &&& page.both_rustfmt@ == with_problem(crates, listed, Problem::BothRustfmt, errors)
    &&& page.cargo_toml_errors@ == with_problem(crates, listed, Problem::CargoTomlErrors, errors)
}

/// A user as the list of users shows it: a user listed as an owner gets the number
/// of the listed crates that are known; any other user stays as it is.
pub open spec fn counted_user(
    counted: User,
    user: User,
    crates: Seq<Crate>,
    crates_by_owner: Map<Seq<char>, Vec<String>>,
) -> bool {
    if crates_by_owner.contains_key(user.id@) {
        counted == User { count: user_crates(user, crates, crates_by_owner).len() as usize, ..user }
    } else {
        counted == user
    }
}

/// The positions of the users that the ownership index lists.
pub open spec fn listed_owners(users: Seq<User>, crates_by_owner: Map<Seq<char>, Vec<String>>) -> Seq<usize> {
    indices_where(users.len(), |i: int| crates_by_owner.contains_key(users[i].id@))
}

fn page_of_user(
    u: usize,
    user: &User,
    crates: &Vec<Crate>,
    by_id: &TextMap<usize>,
    ids: &Vec<String>,
    errors: &TextMap<String>,
) -> (page: UserPage)
    requires
        by_id.wf(),
        errors.wf(),
        by_id.view() == map_of_pairs(crate_id_pairs(crates@)),
        forall|key: Seq<char>| #[trigger] by_id.view().contains_key(key) ==> by_id.view()[key] < crates@.len(),
    ensures
        page.user == u,
        page.file@ == user_page_file(user.gh_login@),
        newest_first_order(crates@, known_positions(ids@, by_id.view()), page.crates@),
        page.crates@.len() == known_positions(ids@, by_id.view()).len(),
        page.vcs_with_http@ == with_problem(crates@, page.crates@, Problem::VcsWithHttp, errors.view()),
        page.vcs_with_www@ == with_problem(crates@, page.crates@, Problem::VcsWithWww, errors.view()),
        page.both_rustfmt@ == with_problem(crates@, page.crates@, Problem::BothRustfmt, errors.view()),
        page.cargo_toml_errors@ == with_problem(crates@, page.crates@, Problem::CargoTomlErrors, errors.view()),
{
    let positions = crates_of_ids(ids, by_id);
    proof {
        lemma_known_positions_bounded(ids@, by_id.view(), crates@.len());
    }
    let ghost picked = positions@;
    let listed = newest_positions_first(crates, positions);
    proof {
        let order = choose|order: Seq<usize>|
            #[trigger] is_stable_order(update_keys_at(crates@, picked), order, true) && listed@
                == order.map_values(|i: usize| picked[i as int]);
        assert forall|j: int| 0 <= j < listed@.len() implies #[trigger] listed@[j] < crates@.len() by {
            assert(listed@[j] == picked[order[j] as int]);
        }
    }
    let lower = to_ascii_lowercase(user.gh_login.as_str());
    let parts: Vec<&str> = vec!["users", lower.as_str()];
    proof {
        reveal_strlit("html");
        reveal_strlit("_site");
        reveal_strlit("users");
        assert(!"html"@.contains('/')) by {
            assert forall|i: int| 0 <= i < "html"@.len() implies "html"@[i] != '/' by {}
        }
    }
    let file = build_path(get_site_folder(), parts.as_slice(), Some("html"));
    proof {
        assert(crate::paths::texts_of(parts@) =~= seq!["users"@, lower@]);
    }
    let vcs_with_http = crates_with_problem(crates, &listed, Problem::VcsWithHttp, errors);
    let vcs_with_www = crates_with_problem(crates, &listed, Problem::VcsWithWww, errors);
    let both_rustfmt = crates_with_problem(crates, &listed, Problem::BothRustfmt, errors);
    let cargo_toml_errors = crates_with_problem(crates, &listed, Problem::CargoTomlErrors, errors);
    UserPage { user: u, file, crates: listed, vcs_with_http, vcs_with_www, both_rustfmt, cargo_toml_errors }
}


/// Plans the pages of the users: gives the users, each counted (see
/// `counted_user`), and the page of each user that the ownership index lists, in
/// the order of the users (see `user_page_fits`).
pub fn plan_user_pages(
    crates: &Vec<Crate>,
    users: Vec<User>,
    crates_by_owner: &TextMap<Vec<String>>,
    errors: &TextMap<String>,
) -> (r: (Vec<User>, Vec<UserPage>))
    requires
        crates_by_owner.wf(),
        errors.wf(),
    ensures
        r.0@.len() == users@.len(),
        forall|i: int|
            0 <= i < users@.len() ==> counted_user(
                #[trigger] r.0@[i],
                users@[i],
                crates@,
                crates_by_owner.view(),
            ),
        r.1@.len() == listed_owners(users@, crates_by_owner.view()).len(),
        forall|k: int|
            0 <= k < r.1@.len() ==> user_page_fits(
                #[trigger] r.1@[k],
                listed_owners(users@, crates_by_owner.view())[k] as int,
                users@[listed_owners(users@, crates_by_owner.view())[k] as int],
                crates@,
                crates_by_owner.view(),
                errors.view(),
            ),
{
    let by_id = index_crates_by_id(crates);
    let ghost initial = users@;
    let ghost owner_map = crates_by_owner.view();
    let ghost listed = |k: int| owner_map.contains_key(initial[k].id@);
    let mut users = users;
    let mut pages: Vec<UserPage> = Vec::new();
    let n = users.len();
    for i in 0..n
        invariant
            n == initial.len(),
            users@.len() == n,
            crates_by_owner.wf(),
            errors.wf(),
            owner_map == crates_by_owner.view(),
            listed == (|k: int| owner_map.contains_key(initial[k].id@)),
            by_id.wf(),
            by_id.view() == map_of_pairs(crate_id_pairs(crates@)),
            forall|key: Seq<char>| #[trigger] by_id.view().contains_key(key) ==> by_id.view()[key] < crates@.len(),
            forall|j: int| i <= j < n ==> #[trigger] users@[j] == initial[j],
            forall|j: int| 0 <= j < i ==> counted_user(#[trigger] users@[j], initial[j], crates@, owner_map),
            pages@.len() == indices_where(i as nat, listed).len(),
            forall|k: int|
                0 <= k < pages@.len() ==> user_page_fits(
                    #[trigger] pages@[k],
                    indices_where(i as nat, listed)[k] as int,
                    initial[indices_where(i as nat, listed)[k] as int],
                    crates@,
                    owner_map,
                    errors.view(),
                ),
    {
        let ghost before = pages@;
        match crates_by_owner.get(users[i].id.as_str()) {
            Some(ids) => {
                let page = page_of_user(i, &users[i], crates, &by_id, ids, errors);
                users[i].count = page.crates.len();
                pages.push(page);
                proof {
                    assert(listed(i as int));
                    assert(indices_where((i + 1) as nat, listed) == indices_where(i as nat, listed).push(i));
                    assert forall|k: int| 0 <= k < pages@.len() implies user_page_fits(
                        #[trigger] pages@[k],
                        indices_where((i + 1) as nat, listed)[k] as int,
                        initial[indices_where((i + 1) as nat, listed)[k] as int],
                        crates@,
                        owner_map,
                        errors.view(),
                    ) by {
                        if k < before.len() {
                            assert(pages@[k] == before[k]);
                        }
                    }
                }
            },
            None => {
                proof {
                    assert(!listed(i as int));
                    assert(indices_where((i + 1) as nat, listed) == indices_where(i as nat, listed));
                }
            },
        }
    }
    proof {
        crate::pages::lemma_indices_where_same(
            n as nat,
            listed,
            |k: int| owner_map.contains_key(initial[k].id@),
        );
    }
    (users, pages)
}


/// The users that own crates.
pub open spec fn owning_users(users: Seq<User>) -> Seq<User> {
    users.filter(|u: User| u.count > 0)
}

/// The sort keys of users by name.
pub open spec fn name_keys(users: Seq<User>) -> Seq<(u64, String)> {
    users.map_values(|u: User| (0u64, u.name))
}

/// The users that own crates, by name; users of the same name keep their order.
pub fn users_with_crates(users: Vec<User>) -> (listed: Vec<User>)
    ensures
        exists|order: Seq<usize>|
            #[trigger] is_stable_order(name_keys(owning_users(users@)), order, false) && listed@
                == order.map_values(|i: usize| owning_users(users@)[i as int]),
{
    let ghost initial = users@;
    let n = users.len();
    let mut users = users;
    let mut reversed: Vec<User> = Vec::new();
    while users.len() > 0
        invariant
            n == initial.len(),
            users@.len() + reversed@.len() == n,
            users@ =~= initial.take(users@.len() as int),
            forall|p: int| 0 <= p < reversed@.len() ==> #[trigger] reversed@[p] == initial[n - 1 - p],
        decreases users@.len(),
    {
        match users.pop() {
            Some(u) => reversed.push(u),
            None => {},
        }
        assert(users@ =~= initial.take(users@.len() as int));
    }
    let mut kept: Vec<User> = Vec::new();
    while reversed.len() > 0
        invariant
            n == initial.len(),
            reversed@.len() <= n,
            forall|p: int| 0 <= p < reversed@.len() ==> #[trigger] reversed@[p] == initial[n - 1 - p],
            kept@ == owning_users(initial.take(n - reversed@.len())),
        decreases reversed@.len(),
    {
        let ghost done = n - reversed@.len();
        match reversed.pop() {
            Some(u) => {
                proof {
                    assert(u == initial[done]);
                    assert(initial.take(done + 1) =~= initial.take(done).push(u));
                    lemma_filter_push(initial.take(done), u, |v: User| v.count > 0);
                }
                if u.count > 0 {
                    kept.push(u);
                }
            },
            None => {},
        }
    }
    assert(initial.take(n as int) =~= initial);
    let mut keys: Vec<(u64, String)> = Vec::new();
    for i in 0..kept.len()
        invariant
            keys@ =~= name_keys(kept@).take(i as int),
    {
        keys.push((0, kept[i].name.clone()));
        assert(keys@ =~= name_keys(kept@).take(i + 1));
    }
    assert(keys@ =~= name_keys(kept@));
    let order = stable_order(&keys, false);
    let ghost owning = kept@;
    let listed = apply_order(kept, &order);
    assert(listed@ =~= order@.map_values(|i: usize| owning[i as int]));
    assert(is_stable_order(name_keys(owning), order@, false));
    listed
}

/// `rows` are the rows of the list of users for the search: each user's name and
/// login in lowercase, in the order `order` of the users, which sorts them by that
/// login; users with the same login keep their order.
pub open spec fn json_rows_fit(rows: Seq<(String, String)>, users: Seq<User>, order: Seq<usize>) -> bool {
    &&& is_index_permutation(order, users.len())
    &&& rows.len() == users.len()
    &&& forall|k: int|
        0 <= k < rows.len() ==> (#[trigger] rows[k]).0@ == users[order[k] as int].name@ && rows[k].1@
            == lowercase_of(users[order[k] as int].gh_login@)
    &&& forall|i: int, j: int|
        0 <= i < j < rows.len() ==> !text_less(#[trigger] rows[j].1@, #[trigger] rows[i].1@)
    &&& forall|i: int, j: int|
        0 <= i < j < rows.len() && #[trigger] rows[i].1@ == #[trigger] rows[j].1@ ==> order[i] < order[j]
}

/// The rows of the list of users for the search (see `json_rows_fit`).
pub fn users_json_rows(users: &Vec<User>) -> (rows: Vec<(String, String)>)
    ensures
        exists|order: Seq<usize>| #[trigger] json_rows_fit(rows@, users@, order),
{
    let mut unsorted: Vec<(String, String)> = Vec::new();
    let mut keys: Vec<(u64, String)> = Vec::new();
    for i in 0..users.len()
        invariant
            unsorted@.len() == i,
            keys@.len() == i,
            forall|k: int|
                0 <= k < i ==> (#[trigger] unsorted@[k]).0@ == users@[k].name@ && unsorted@[k].1@
                    == lowercase_of(users@[k].gh_login@) && keys@[k].0 == 0 && keys@[k].1@ == unsorted@[k].1@,
    {
        let lower = to_lowercase(users[i].gh_login.as_str());
        keys.push((0, lower.clone()));
        unsorted.push((users[i].name.clone(), lower));
    }
    let order = stable_order(&keys, false);
    let ghost before = unsorted@;
    let rows = apply_order(unsorted, &order);
    proof {
        assert forall|i: int, j: int| 0 <= i < j < rows@.len() implies !text_less(
            #[trigger] rows@[j].1@,
            #[trigger] rows@[i].1@,
        ) by {
            assert(rows@[i] == before[order@[i] as int]);
            assert(rows@[j] == before[order@[j] as int]);
            assert(crate::order::may_precede(
                crate::order::key_of(keys@[order@[i] as int]),
                crate::order::key_of(keys@[order@[j] as int]),
                false,
            ));
        }
        assert forall|i: int, j: int|
            0 <= i < j < rows@.len() && #[trigger] rows@[i].1@ == #[trigger] rows@[j].1@ implies order@[i] < order@[j] by {
            assert(rows@[i] == before[order@[i] as int]);
            assert(rows@[j] == before[order@[j] as int]);
            assert(crate::order::key_of(keys@[order@[i] as int]) == crate::order::key_of(keys@[order@[j] as int]));
        }
        assert forall|k: int| 0 <= k < rows@.len() implies (#[trigger] rows@[k]).0@ == users@[order@[k] as int].name@
            && rows@[k].1@ == lowercase_of(users@[order@[k] as int].gh_login@) by {
            assert(rows@[k] == before[order@[k] as int]);
        }
        assert(json_rows_fit(rows@, users@, order@));
    }
    rows
}


/// The list of users holds only users of the given list that own crates, sorted
/// by name.
pub proof fn lemma_listed_users_own_crates(users: Seq<User>, listed: Seq<User>, order: Seq<usize>)
    requires
        is_stable_order(name_keys(owning_users(users)), order, false),
        listed == order.map_values(|i: usize| owning_users(users)[i as int]),
    ensures
        forall|k: int| 0 <= k < listed.len() ==> (#[trigger] listed[k]).count > 0 && users.contains(listed[k]),
        forall|i: int, j: int| 0 <= i < j < listed.len() ==> !text_less((#[trigger] listed[j]).name@, (#[trigger] listed[i]).name@),
{
    let owning = owning_users(users);
    let pred = |u: User| u.count > 0;
    assert forall|k: int| 0 <= k < listed.len() implies (#[trigger] listed[k]).count > 0 && users.contains(listed[k]) by {
        let e = order[k] as int;
        assert(listed[k] == owning[e]);
        users.lemma_filter_pred(pred, e);
        assert(owning.contains(owning[e]));
        users.lemma_filter_contains_rev(pred, owning[e]);
    }
    assert forall|i: int, j: int| 0 <= i < j < listed.len() implies !text_less((#[trigger] listed[j]).name@, (#[trigger] listed[i]).name@) by {
        let keys = name_keys(owning);
        assert(crate::order::may_precede(
            crate::order::key_of(keys[order[i] as int]),
            crate::order::key_of(keys[order[j] as int]),
            false,
        ));
        assert(listed[i] == owning[order[i] as int]);
        assert(listed[j] == owning[order[j] as int]);
    }
}

} // verus!
