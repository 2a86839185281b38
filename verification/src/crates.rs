//! The crates of crates.io, their owners and the details collected about them.

use vstd::prelude::*;

use crate::cargo_toml::Cargo;
use crate::order::{apply_order, is_stable_order, stable_order};
use crate::text_map::{map_of_pairs, TextMap};

verus! {

/// What was found in the released files of a crate.
pub struct CrateDetails {
    pub has_build_rs: bool,
    pub has_cargo_toml: bool,
    pub has_cargo_lock: bool,
    pub has_clippy_toml: bool,
    pub has_dot_clippy_toml: bool,
    pub has_rustfmt_toml: bool,
    pub has_dot_rustfmt_toml: bool,
    pub has_main_rs: bool,
    pub nonstandard_folders: Vec<String>,
    pub size: u64,
}

impl CrateDetails {
    /// Nothing found: every flag off, no folders, size 0.
    pub open spec fn is_blank(&self) -> bool {
        &&& !self.has_build_rs
        &&& !self.has_cargo_toml
        &&& !self.has_cargo_lock
        &&& !self.has_clippy_toml
        &&& !self.has_dot_clippy_toml
        &&& !self.has_rustfmt_toml
        &&& !self.has_dot_rustfmt_toml
        &&& !self.has_main_rs
        &&& self.nonstandard_folders@.len() == 0
        &&& self.size == 0
    }

    /// Details with nothing found yet.
    pub fn new() -> (d: Self)
        ensures
            d.is_blank(),
    {
        CrateDetails {
            has_build_rs: false,
            has_cargo_toml: false,
            has_cargo_lock: false,
            has_clippy_toml: false,
            has_dot_clippy_toml: false,
            has_rustfmt_toml: false,
            has_dot_rustfmt_toml: false,
            has_main_rs: false,
            nonstandard_folders: Vec::new(),
            size: 0,
        }
    }
}

impl Default for CrateDetails {
    fn default() -> (d: Self)
        ensures
            d.is_blank(),
    {
        CrateDetails::new()
    }
}

/// The platforms that host version control repositories.
pub enum RepoPlatform {
    GitHub,
    GitLab,
    Gitea,
    Cgit,
    Forgejo,
    Fossil,
    Mercurial,
    Gogs,
}

/// What was found in the repository of a crate.
pub struct VCSDetails {
    pub has_github_action: bool,
    pub has_gitlab_pipeline: bool,
    pub has_circle_ci: bool,
    pub has_cirrus_ci: bool,
    pub has_travis_ci: bool,
    pub has_jenkins: bool,
    pub has_appveyor: bool,
    pub has_azure_pipeline: bool,
    pub has_bitbucket_pipeline: bool,
    pub commit_count: i32,
    pub cargo_toml_in_root: bool,
    pub cargo_fmt: String,
    pub git_clone_error: String,
    pub has_rustfmt_toml: bool,
    pub has_dot_rustfmt_toml: bool,
}

impl VCSDetails {
    /// Nothing found: every flag off, no commits, empty texts.
    pub open spec fn is_blank(&self) -> bool {
        &&& !self.has_github_action
        &&& !self.has_gitlab_pipeline
        &&& !self.has_circle_ci
        &&& !self.has_cirrus_ci
        &&& !self.has_travis_ci
        &&& !self.has_jenkins
        &&& !self.has_appveyor
        &&& !self.has_azure_pipeline
        &&& !self.has_bitbucket_pipeline
        &&& self.commit_count == 0
        &&& !self.cargo_toml_in_root
        &&& self.cargo_fmt@.len() == 0
        &&& self.git_clone_error@.len() == 0
        &&& !self.has_rustfmt_toml
        &&& !self.has_dot_rustfmt_toml
    }

    /// Details with nothing found yet.
    pub fn new() -> (d: Self)
        ensures
            d.is_blank(),
    {
        VCSDetails {
            has_github_action: false,
            has_gitlab_pipeline: false,
            has_circle_ci: false,
            has_cirrus_ci: false,
            has_travis_ci: false,
            has_jenkins: false,
            has_appveyor: false,
            has_azure_pipeline: false,
            has_bitbucket_pipeline: false,
            commit_count: 0,
            cargo_toml_in_root: false,
            cargo_fmt: String::new(),
            git_clone_error: String::new(),
            has_rustfmt_toml: false,
            has_dot_rustfmt_toml: false,
        }
    }
}

impl Default for VCSDetails {
    fn default() -> (d: Self)
        ensures
            d.is_blank(),
    {
        VCSDetails::new()
    }
}

/// A kind of repository host, with the number and share of the crates it hosts.
pub struct Repo {
    pub display: String,
    pub name: String,
    pub url: String,
    pub count: usize,
    pub percentage: String,
    pub platform: Option<RepoPlatform>,
    pub bold: bool,
}

/// A row of `versions.csv` in the database dump.
pub struct CrateVersion {
    pub checksum: String,
    pub crate_id: String,
    pub crate_size: String,
    pub created_at: String,
    pub features: String,
    pub id: String,
    pub license: String,
    pub links: String,
    pub num: String,
    pub published_by: String,
    pub rust_version: String,
    pub updated_at: String,
    pub yanked: String,
}

/// A crate: its row of `crates.csv`, its owner, and what was found about it.
pub struct Crate {
    pub created_at: String,
    pub description: String,
    pub documentation: String,
    pub homepage: String,
    pub id: String,
    pub max_upload_size: String,
    pub name: String,
    pub readme: String,
    pub repository: String,
    pub updated_at: String,
    pub owner_gh_login: String,
    pub owner_name: String,
    pub owner_gh_avatar: String,
    pub vcs_details: VCSDetails,
    pub cargo: Cargo,
    pub crate_details: CrateDetails,
}

impl Crate {
    /// A crate with every text empty and nothing found.
    pub open spec fn is_blank(&self) -> bool {
        &&& self.created_at@.len() == 0
        &&& self.description@.len() == 0
        &&& self.documentation@.len() == 0
        &&& self.homepage@.len() == 0
        &&& self.id@.len() == 0
        &&& self.max_upload_size@.len() == 0
        &&& self.name@.len() == 0
        &&& self.readme@.len() == 0
        &&& self.repository@.len() == 0
        &&& self.updated_at@.len() == 0
        &&& self.owner_gh_login@.len() == 0
        &&& self.owner_name@.len() == 0
        &&& self.owner_gh_avatar@.len() == 0
        &&& self.vcs_details.is_blank()
        &&& self.cargo.is_blank()
        &&& self.crate_details.is_blank()
    }

    /// An empty crate.
    pub fn new() -> (c: Self)
        ensures
            c.is_blank(),
    {
        Crate {
            created_at: String::new(),
            description: String::new(),
            documentation: String::new(),
            homepage: String::new(),
            id: String::new(),
            max_upload_size: String::new(),
            name: String::new(),
            readme: String::new(),
            repository: String::new(),
            updated_at: String::new(),
            owner_gh_avatar: String::new(),
            owner_gh_login: String::new(),
            owner_name: String::new(),
            vcs_details: VCSDetails::new(),
            cargo: Cargo::new(),
            crate_details: CrateDetails::new(),
        }
    }
}

impl Default for Crate {
    fn default() -> (c: Self)
        ensures
            c.is_blank(),
    {
        Crate::new()
    }
}

/// A user of crates.io, with the number of crates it owns.
pub struct User {
    pub gh_avatar: String,
    pub gh_id: String,
    pub gh_login: String,
    pub id: String,
    pub name: String,
    pub count: usize,
}

/// A team of crates.io.
pub struct Team {
    pub avatar: String,
    pub github_id: String,
    pub login: String,
    pub id: String,
    pub name: String,
    pub org_id: String,
}

/// A row of `crate_owners.csv`: an owner of a crate.
pub struct CrateOwner {
    pub crate_id: String,
    pub created_at: String,
    pub created_by: String,
    pub owner_id: String,
    pub owner_kind: String,
}

/// Whether a reading loop has reached its limit: a limit of 0 means no limit.
pub fn limit_reached(count: u32, limit: u32) -> (r: bool)
    ensures
        r == (limit > 0 && count >= limit),
{
    limit > 0 && count >= limit
}

/// A team listed as a user that owns no crates yet.
pub fn team_to_user(team: Team) -> (user: User)
    ensures
        user.gh_avatar == team.avatar,
        user.gh_login == team.login,
        user.gh_id == team.github_id,
        user.name == team.name,
        user.id == team.id,
        user.count == 0,
{
    User {
        gh_avatar: team.avatar,
        gh_login: team.login,
        gh_id: team.github_id,
        name: team.name,
        id: team.id,
        count: 0,
    }
}

/// The sort keys of crates by the time of their last update.
pub open spec fn update_keys(crates: Seq<Crate>) -> Seq<(u64, String)> {
    crates.map_values(|c: Crate| (0u64, c.updated_at))
}

/// The crates, the most recently updated first; crates updated at the same time
/// keep their order.
pub fn newest_first(crates: Vec<Crate>) -> (sorted: Vec<Crate>)
    ensures
        exists|order: Seq<usize>|
            is_stable_order(update_keys(crates@), order, true) && sorted@ =~= order.map_values(
                |i: usize| crates@[i as int],
            ),
{
    let mut keys: Vec<(u64, String)> = Vec::new();
    for i in 0..crates.len()
        invariant
            keys@ =~= update_keys(crates@).take(i as int),
    {
        keys.push((0, crates[i].updated_at.clone()));
        assert(keys@ =~= update_keys(crates@).take(i + 1));
    }
    assert(keys@ =~= update_keys(crates@));
    let order = stable_order(&keys, true);
    let ghost initial = crates@;
    let sorted = apply_order(crates, &order);
    assert(sorted@ =~= order@.map_values(|i: usize| initial[i as int]));
    sorted
}

/// The pairs of names and positions of released manifests.
pub open spec fn release_name_pairs(released: Seq<Cargo>) -> Seq<(Seq<char>, usize)> {
    released.map(|i: int, c: Cargo| (c.package.name@, i as usize))
}

/// The manifest that a crate gets from the released manifests: the last one with
/// the crate's name, or none.
pub open spec fn release_for(released: Seq<Cargo>, name: Seq<char>) -> Option<int> {
    let m = map_of_pairs(release_name_pairs(released));
    if m.contains_key(name) {
        Some(m[name] as int)
    } else {
        None
    }
}

/// The crate is `krate` with only its manifest changed.
pub open spec fn same_but_cargo(c: Crate, krate: Crate) -> bool {
    c == Crate { cargo: c.cargo, ..krate }
}

/// The position of the released manifest of each crate name: where several have a
/// name, the last of them.
pub fn index_releases(released: &Vec<Cargo>) -> (by_name: TextMap<usize>)
    ensures
        by_name.wf(),
        by_name.view() == map_of_pairs(release_name_pairs(released@)),
        forall|key: Seq<char>| #[trigger] by_name.view().contains_key(key) ==> by_name.view()[key] < released@.len(),
{
    let mut by_name: TextMap<usize> = TextMap::new();
    let n = released.len();
    for k in 0..n
        invariant
            n == released@.len(),
            by_name.wf(),
            by_name.view() == map_of_pairs(release_name_pairs(released@).take(k as int)),
            forall|key: Seq<char>| #[trigger] by_name.view().contains_key(key) ==> by_name.view()[key] < k,
    {
        by_name.insert(released[k].package.name.clone(), k);
        proof {
            let pairs = release_name_pairs(released@);
            assert(pairs.take(k + 1).drop_last() =~= pairs.take(k as int));
        }
    }
    proof {
        assert(release_name_pairs(released@).take(n as int) =~= release_name_pairs(released@));
    }
    by_name
}

/// Each crate gets a copy of the released manifest with its name, the last one of
/// them where several have it, or an empty manifest where none has.
pub fn add_cargo_toml_to_crates(crates: Vec<Crate>, released: &Vec<Cargo>) -> (updated: Vec<Crate>)
    ensures
        updated@.len() == crates@.len(),
        forall|i: int|
            0 <= i < crates@.len() ==> {
                &&& same_but_cargo(#[trigger] updated@[i], crates@[i])
                &&& match release_for(released@, crates@[i].name@) {
                    Some(k) => 0 <= k < released@.len() && updated@[i].cargo.same_as(&released@[k]),
                    None => updated@[i].cargo.is_blank(),
                }
            },
{
    let by_name = index_releases(released);
    let ghost initial = crates@;
    let mut crates = crates;
    let mut updated: Vec<Crate> = Vec::new();
    let mut rest: Vec<Crate> = Vec::new();
    while crates.len() > 0
        invariant
            crates@.len() + rest@.len() == initial.len(),
            crates@ =~= initial.take(crates@.len() as int),
            forall|p: int| 0 <= p < rest@.len() ==> #[trigger] rest@[p] == initial[initial.len() - 1 - p],
        decreases crates@.len(),
    {
        let last = crates.pop();
        match last {
            Some(c) => rest.push(c),
            None => {},
        }
        assert(crates@ =~= initial.take(crates@.len() as int));
    }
    let total = rest.len();
    while rest.len() > 0
        invariant
            total == initial.len(),
            by_name.wf(),
            by_name.view() == map_of_pairs(release_name_pairs(released@)),
            forall|key: Seq<char>| #[trigger] by_name.view().contains_key(key) ==> by_name.view()[key] < released@.len(),
            rest@.len() + updated@.len() == total,
            forall|p: int| 0 <= p < rest@.len() ==> #[trigger] rest@[p] == initial[total - 1 - p],
            forall|i: int|
                0 <= i < updated@.len() ==> {
                    &&& same_but_cargo(#[trigger] updated@[i], initial[i])
                    &&& match release_for(released@, initial[i].name@) {
                        Some(k) => 0 <= k < released@.len() && updated@[i].cargo.same_as(&released@[k]),
                        None => updated@[i].cargo.is_blank(),
                    }
                },
        decreases rest@.len(),
    {
        let next = rest.pop();
        match next {
            Some(krate) => {
                let mut krate = krate;
                let ghost before = krate;
                let cargo = match by_name.get(krate.name.as_str()) {
                    Some(k) => released[*k].duplicate(),
                    None => Cargo::new(),
                };
                krate.cargo = cargo;
                assert(same_but_cargo(krate, before));
                updated.push(krate);
            },
            None => {},
        }
    }
    updated
}

/// The pairs of user ids and positions of users.
pub open spec fn user_id_pairs(users: Seq<User>) -> Seq<(Seq<char>, usize)> {
    users.map(|i: int, u: User| (u.id@, i as usize))
}

/// The pairs of crate ids and owner ids of the ownership rows.
pub open spec fn owner_pairs(records: Seq<CrateOwner>) -> Seq<(Seq<char>, String)> {
    records.map_values(|r: CrateOwner| (r.crate_id@, r.owner_id))
}

/// The user that owns a crate: the user with the id of the owner that the crate is
/// listed with; where several users have that id, the last one.
pub open spec fn owner_of(users: Seq<User>, owners: Map<Seq<char>, String>, crate_id: Seq<char>) -> Option<int> {
    if owners.contains_key(crate_id) && map_of_pairs(user_id_pairs(users)).contains_key(
        owners[crate_id]@,
    ) {
        Some(map_of_pairs(user_id_pairs(users))[owners[crate_id]@] as int)
    } else {
        None
    }
}

/// A crate that got the login, name and avatar of a user.
pub open spec fn owned_by(c: Crate, krate: Crate, user: User) -> bool {
    c == Crate {
        owner_gh_login: user.gh_login,
        owner_name: user.name,
        owner_gh_avatar: user.gh_avatar,
        ..krate
    }
}

/// Each crate whose owner is a known user gets that user's GitHub login, name and
/// avatar; the other crates stay as they are.
pub fn add_owners_to_crates(crates: &mut Vec<Crate>, users: &Vec<User>, owner_by_crate_id: &TextMap<String>)
    requires
        owner_by_crate_id.wf(),
    ensures
        final(crates)@.len() == old(crates)@.len(),
        forall|i: int|
            0 <= i < old(crates)@.len() ==> match owner_of(
                users@,
                owner_by_crate_id.view(),
                old(crates)@[i].id@,
            ) {
                Some(u) => 0 <= u < users@.len() && owned_by(
                    #[trigger] final(crates)@[i],
                    old(crates)@[i],
                    users@[u],
                ),
                None => final(crates)@[i] == old(crates)@[i],
            },
{
    let mut mapping: TextMap<usize> = TextMap::new();
    let n = users.len();
    for k in 0..n
        invariant
            n == users@.len(),
            mapping.wf(),
            mapping.view() == map_of_pairs(user_id_pairs(users@).take(k as int)),
            forall|key: Seq<char>| #[trigger] mapping.view().contains_key(key) ==> mapping.view()[key] < k,
    {
        mapping.insert(users[k].id.clone(), k);
        proof {
            let pairs = user_id_pairs(users@);
            assert(pairs.take(k + 1).drop_last() =~= pairs.take(k as int));
        }
    }
    proof {
        assert(user_id_pairs(users@).take(n as int) =~= user_id_pairs(users@));
    }
    let ghost initial = crates@;
    let total = crates.len();
    for i in 0..total
        invariant
            total == initial.len(),
            crates@.len() == total,
            owner_by_crate_id.wf(),
            mapping.wf(),
            mapping.view() == map_of_pairs(user_id_pairs(users@)),
            forall|key: Seq<char>| #[trigger] mapping.view().contains_key(key) ==> mapping.view()[key] < users@.len(),
            forall|j: int| i <= j < total ==> #[trigger] crates@[j] == initial[j],
            forall|j: int|
                0 <= j < i ==> match owner_of(users@, owner_by_crate_id.view(), initial[j].id@) {
                    Some(u) => 0 <= u < users@.len() && owned_by(#[trigger] crates@[j], initial[j], users@[u]),
                    None => crates@[j] == initial[j],
                },
    {
        match owner_by_crate_id.get(crates[i].id.as_str()) {
            Some(owner_id) => {
                match mapping.get(owner_id.as_str()) {
                    Some(u) => {
                        let user = &users[*u];
                        let login = user.gh_login.clone();
                        let name = user.name.clone();
                        let avatar = user.gh_avatar.clone();
                        crates[i].owner_gh_login = login;
                        crates[i].owner_name = name;
                        crates[i].owner_gh_avatar = avatar;
                    },
                    None => {},
                }
            },
            None => {},
        }
    }
}


/// The ids of the crates that the ownership rows list for `owner_id`, in the order
/// of the rows.
pub open spec fn owned_crate_ids(records: Seq<CrateOwner>, owner_id: Seq<char>) -> Seq<String> {
    records.filter(|r: CrateOwner| r.owner_id@ == owner_id).map_values(|r: CrateOwner| r.crate_id)
}

pub(crate) proof fn lemma_filter_push<A>(s: Seq<A>, x: A, pred: spec_fn(A) -> bool)
    ensures
        s.push(x).filter(pred) == if pred(x) {
            s.filter(pred).push(x)
        } else {
            s.filter(pred)
        },
{
    assert(s.push(x) =~= s + seq![x]);
    Seq::filter_distributes_over_add(s, seq![x], pred);
    reveal_with_fuel(Seq::filter, 2);
    assert(seq![x].drop_last() =~= Seq::<A>::empty());
    if pred(x) {
        assert(seq![x].filter(pred) =~= seq![x]);
        assert(s.filter(pred) + seq![x] =~= s.filter(pred).push(x));
    } else {
        assert(seq![x].filter(pred) =~= Seq::<A>::empty());
        assert(s.filter(pred) + Seq::<A>::empty() =~= s.filter(pred));
    }
}

/// Indexes the ownership rows: the owner of each crate (the last row for a crate
/// counts), and the crates of each owner in the order of the rows.
pub fn index_crate_owners(records: &Vec<CrateOwner>) -> (r: (TextMap<String>, TextMap<Vec<String>>))
    ensures
        r.0.wf(),
        r.1.wf(),
        r.0.view() == map_of_pairs(owner_pairs(records@)),
        forall|o: Seq<char>|
            #[trigger] r.1.view().contains_key(o) <==> exists|j: int|
                0 <= j < records@.len() && #[trigger] records@[j].owner_id@ == o,
        forall|o: Seq<char>|
            #[trigger] r.1.view().contains_key(o) ==> r.1.view()[o]@ == owned_crate_ids(records@, o),
{
    let mut owner_by_crate_id: TextMap<String> = TextMap::new();
    let mut crates_by_owner: TextMap<Vec<String>> = TextMap::new();
    let n = records.len();
    for k in 0..n
        invariant
            n == records@.len(),
            owner_by_crate_id.wf(),
            crates_by_owner.wf(),
            owner_by_crate_id.view() == map_of_pairs(owner_pairs(records@).take(k as int)),
            forall|o: Seq<char>|
                #[trigger] crates_by_owner.view().contains_key(o) <==> exists|j: int|
                    0 <= j < k && #[trigger] records@[j].owner_id@ == o,
            forall|o: Seq<char>|
                #[trigger] crates_by_owner.view().contains_key(o) ==> crates_by_owner.view()[o]@
                    == owned_crate_ids(records@.take(k as int), o),
    {
        let record = &records[k];
        owner_by_crate_id.insert(record.crate_id.clone(), record.owner_id.clone());
        let ghost before = crates_by_owner.view();
        let mut list = match crates_by_owner.remove(record.owner_id.as_str()) {
            Some(list) => list,
            None => Vec::new(),
        };
        list.push(record.crate_id.clone());
        let ghost new_list = list;
        crates_by_owner.insert(record.owner_id.clone(), list);
        proof {
            let pairs = owner_pairs(records@);
            assert(pairs.take(k + 1).drop_last() =~= pairs.take(k as int));
            let ro = record.owner_id@;
            assert(records@.take(k + 1) =~= records@.take(k as int).push(*record));
            assert forall|o: Seq<char>| #[trigger] crates_by_owner.view().contains_key(o) <==> exists|j: int|
                0 <= j < k + 1 && #[trigger] records@[j].owner_id@ == o by {
                if o != ro {
                    if exists|j: int| 0 <= j < k + 1 && #[trigger] records@[j].owner_id@ == o {
                        let j = choose|j: int| 0 <= j < k + 1 && #[trigger] records@[j].owner_id@ == o;
                        assert(j < k);
                    }
                }
            }
            assert forall|o: Seq<char>| #[trigger] crates_by_owner.view().contains_key(o) implies crates_by_owner.view()[o]@
                == owned_crate_ids(records@.take(k + 1), o) by {
                let pred = |r: CrateOwner| r.owner_id@ == o;
                lemma_filter_push(records@.take(k as int), *record, pred);
                if o == ro {
                    if before.contains_key(o) {
                        assert(new_list@ =~= owned_crate_ids(records@.take(k + 1), o));
                    } else {
                        assert(records@.take(k as int).filter(pred) =~= Seq::<CrateOwner>::empty()) by {
                            if records@.take(k as int).filter(pred).len() > 0 {
                                let f = records@.take(k as int).filter(pred);
                                records@.take(k as int).lemma_filter_contains_rev(pred, f[0]);
                                assert(f.contains(f[0]));
                                let j = choose|j: int| 0 <= j < k && records@.take(k as int)[j] == f[0];
                                assert(records@[j].owner_id@ == o);
                            }
                        }
                        assert(new_list@ =~= owned_crate_ids(records@.take(k + 1), o));
                    }
                } else {
                    assert(owned_crate_ids(records@.take(k + 1), o) =~= owned_crate_ids(records@.take(k as int), o));
                }
            }
        }
    }
    proof {
        assert(owner_pairs(records@).take(n as int) =~= owner_pairs(records@));
        assert(records@.take(n as int) =~= records@);
    }
    (owner_by_crate_id, crates_by_owner)
}


/// The default of a host line's `bold` flag: off.
pub fn get_default_bold() -> (b: bool)
    ensures
        !b,
{
    false
}

/// The default count of a host line: 0.
pub fn get_default_count() -> (n: usize)
    ensures
        n == 0,
{
    0
}

/// The default share of a host line: `0`.
pub fn get_default_percentage() -> (s: String)
    ensures
        s@ == "0"@,
{
    String::from_str("0")
}

/// The default details of a repository: nothing found.
pub fn empty_details() -> (d: VCSDetails)
    ensures
        d.is_blank(),
{
    VCSDetails::new()
}

/// The default manifest of a crate: nothing declared.
pub fn empty_cargo() -> (c: Cargo)
    ensures
        c.is_blank(),
{
    Cargo::new()
}

/// The default details of a released crate: nothing found.
pub fn empty_crate_details() -> (d: CrateDetails)
    ensures
        d.is_blank(),
{
    CrateDetails::new()
}

/// The default of a text field: empty.
pub fn empty_string() -> (s: String)
    ensures
        s@.len() == 0,
{
    String::new()
}

/// The default count of crates of a user: 0.
pub fn get_zero() -> (n: usize)
    ensures
        n == 0,
{
    0
}

/// The default of a flag: off.
pub fn default_false() -> (b: bool)
    ensures
        !b,
{
    false
}

/// What the first collector found in a cloned repository: whether it has GitHub
/// Actions or a GitLab pipeline, its number of commits and what `cargo fix`
/// changed.
pub struct Details {
    pub has_github_action: bool,
    pub has_gitlab_pipeline: bool,
    pub commit_count: i32,
    pub cargo_fix: String,
}

impl Details {
    /// Details with nothing found yet.
    pub fn new() -> (d: Details)
        ensures
            !d.has_github_action,
            !d.has_gitlab_pipeline,
            d.commit_count == 0,
            d.cargo_fix@.len() == 0,
    {
        Details { has_github_action: false, has_gitlab_pipeline: false, commit_count: 0, cargo_fix: String::new() }
    }
}

} // verus!
