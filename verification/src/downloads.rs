//! Which released versions of the crates to download, where they go, and which
//! downloaded folders are out of date.

use vstd::prelude::*;

use crate::crates::{Crate, CrateVersion};
use crate::pages::indices_where;
use crate::paths::append_chars;
use crate::rustfmt::{pieces_of, split_text, string_views, lemma_pieces_of_len};
use crate::text::{
    has_prefix, lemma_text_less_irreflexive, lemma_text_less_total, lemma_text_less_transitive, text_less,
    text_precedes,
};
use crate::text_map::{TextMap, TextSet};

verus! {

/// The position of the version of a crate that counts as its latest: going through
/// the versions in order, a version of the crate replaces the one found so far only
/// when it was created strictly later. `None` where the crate has no version.
pub open spec fn latest_index(versions: Seq<CrateVersion>, crate_id: Seq<char>) -> Option<int>
    decreases versions.len(),
{
    if versions.len() == 0 {
        None
    } else {
        let rest = latest_index(versions.drop_last(), crate_id);
        let last = versions.len() - 1;
        if versions[last].crate_id@ != crate_id {
            rest
        } else {
            match rest {
                None => Some(last),
                Some(j) => if text_less(versions[j].created_at@, versions[last].created_at@) {
                    Some(last)
                } else {
                    Some(j)
                },
            }
        }
    }
}

/// The latest version of each crate (see `latest_index`), by crate id.
pub fn latest_versions(versions: &Vec<CrateVersion>) -> (latest: TextMap<usize>)
    ensures
        latest.wf(),
        forall|id: Seq<char>|
            #[trigger] latest.view().contains_key(id) <==> latest_index(versions@, id) is Some,
        forall|id: Seq<char>|
            #[trigger] latest.view().contains_key(id) ==> latest_index(versions@, id) == Some(
                latest.view()[id] as int,
            ),
        forall|id: Seq<char>| #[trigger] latest.view().contains_key(id) ==> latest.view()[id] < versions@.len(),
{
    let mut latest: TextMap<usize> = TextMap::new();
    let n = versions.len();
    for i in 0..n
        invariant
            n == versions@.len(),
            latest.wf(),
            forall|id: Seq<char>|
                #[trigger] latest.view().contains_key(id) <==> latest_index(versions@.take(i as int), id) is Some,
            forall|id: Seq<char>|
                #[trigger] latest.view().contains_key(id) ==> latest_index(versions@.take(i as int), id)
                    == Some(latest.view()[id] as int) && latest.view()[id] < i,
    {
        proof {
            assert(versions@.take(i + 1).drop_last() =~= versions@.take(i as int));
            assert forall|j: int| 0 <= j < i implies versions@.take(i as int)[j] == #[trigger] versions@[j] by {}
        }
        let id = &versions[i].crate_id;
        let replace = match latest.get(id.as_str()) {
            Some(j) => text_precedes(versions[*j].created_at.as_str(), versions[i].created_at.as_str()),
            None => true,
        };
        if replace {
            latest.insert(id.clone(), i);
        }
        proof {
            assert forall|other: Seq<char>| other != id@ implies latest_index(versions@.take(i + 1), other)
                == latest_index(versions@.take(i as int), other) by {
                assert(versions@.take(i + 1)[i as int] == versions@[i as int]);
            }
            assert(versions@.take(i + 1)[i as int] == versions@[i as int]);
        }
    }
    assert(versions@.take(n as int) =~= versions@);
    latest
}

/// The name of the folder of a released version: the crate's name, a hyphen and
/// the version number.
pub open spec fn folder_name(name: Seq<char>, num: Seq<char>) -> Seq<char> {
    name + "-"@ + num
}

/// The name of the folder of a released version (see `folder_name`).
pub fn crate_folder_name(name: &str, num: &str) -> (folder: String)
    ensures
        folder@ == folder_name(name@, num@),
{
    let mut folder = String::from_str(name);
    append_chars(&mut folder, "-");
    append_chars(&mut folder, num);
    folder
}

/// The address that crates.io serves a released version from.
pub open spec fn download_address(name: Seq<char>, num: Seq<char>) -> Seq<char> {
    "https://crates.io/api/v1/crates/"@ + name + "/"@ + num + "/download"@
}

/// The address that crates.io serves a released version from (see
/// `download_address`).
pub fn download_url(name: &str, num: &str) -> (url: String)
    ensures
        url@ == download_address(name@, num@),
{
    let mut url = String::from_str("https://crates.io/api/v1/crates/");
    append_chars(&mut url, name);
    append_chars(&mut url, "/");
    append_chars(&mut url, num);
    append_chars(&mut url, "/download");
    url
}

/// The latest version of a crate, as the number of that version (see
/// `latest_index`); `None` where the crate has no version.
pub fn latest_number(krate: &Crate, versions: &Vec<CrateVersion>, latest: &TextMap<usize>) -> (num: Option<String>)
    requires
        latest.wf(),
        forall|id: Seq<char>|
            #[trigger] latest.view().contains_key(id) <==> latest_index(versions@, id) is Some,
        forall|id: Seq<char>|
            #[trigger] latest.view().contains_key(id) ==> latest_index(versions@, id) == Some(
                latest.view()[id] as int,
            ) && latest.view()[id] < versions@.len(),
    ensures
        match latest_index(versions@, krate.id@) {
            Some(j) => num matches Some(n) && n@ == versions@[j].num@,
            None => num is None,
        },
{
    match latest.get(krate.id.as_str()) {
        Some(j) => Some(versions[*j].num.clone()),
        None => None,
    }
}

/// The downloaded folders that are not among the newest ones, in their order.
pub open spec fn stale_folders(folders: Seq<Seq<char>>, newest: Set<Seq<char>>) -> Seq<Seq<char>> {
    folders.filter(|f: Seq<char>| !newest.contains(f))
}

/// The downloaded folders that are not among the newest ones (see
/// `stale_folders`).
pub fn folders_to_remove(folders: &Vec<String>, newest: &TextSet) -> (stale: Vec<String>)
    requires
        newest.wf(),
    ensures
        string_views(stale@) == stale_folders(string_views(folders@), newest.view()),
{
    let ghost all = string_views(folders@);
    let ghost pred = |f: Seq<char>| !newest.view().contains(f);
    let mut stale: Vec<String> = Vec::new();
    let n = folders.len();
    for i in 0..n
        invariant
            n == folders@.len(),
            newest.wf(),
            all == string_views(folders@),
            pred == (|f: Seq<char>| !newest.view().contains(f)),
            string_views(stale@) == all.take(i as int).filter(pred),
    {
        let ghost before = stale@;
        proof {
            assert(all.take(i + 1) =~= all.take(i as int).push(folders@[i as int]@));
            crate::crates::lemma_filter_push(all.take(i as int), folders@[i as int]@, pred);
        }
        if !newest.contains(folders[i].as_str()) {
            stale.push(folders[i].clone());
            assert(string_views(stale@) =~= string_views(before).push(folders@[i as int]@));
        }
    }
    assert(all.take(n as int) =~= all);
    stale
}

/// The number of crates downloaded and the bytes they took.
pub struct DownloadTally {
    pub count: u32,
    pub total: u64,
}

impl DownloadTally {
    /// Nothing downloaded yet.
    pub fn new() -> (t: Self)
        ensures
            t.count == 0,
            t.total == 0,
    {
        DownloadTally { count: 0, total: 0 }
    }

    /// Counts a download of `size` bytes.
    pub fn record(&mut self, size: u64)
        requires
            old(self).count < u32::MAX,
            old(self).total + size <= u64::MAX,
        ensures
            final(self).count == old(self).count + 1,
            final(self).total == old(self).total + size,
    {
        self.count = self.count + 1;
        self.total = self.total + size;
    }
}

/// The folder that unpacking the database dump made: the first entry whose name
/// starts with the year, up to its first `/`; `None` where no entry starts with the
/// year.
pub open spec fn extracted_folder(entries: Seq<Seq<char>>, year: Seq<char>) -> Option<Seq<char>> {
    let hits = indices_where(entries.len(), |i: int| year.is_prefix_of(entries[i]));
    if hits.len() == 0 {
        None
    } else {
        Some(pieces_of(entries[hits[0] as int], '/')[0])
    }
}

/// The folder that unpacking the database dump made (see `extracted_folder`).
pub fn pick_extracted_folder(entries: &Vec<String>, year: &str) -> (folder: Option<String>)
    ensures
        match extracted_folder(string_views(entries@), year@) {
            Some(f) => folder matches Some(s) && s@ == f,
            None => folder is None,
        },
{
    let ghost all = string_views(entries@);
    let ghost p = |i: int| year@.is_prefix_of(all[i]);
    let n = entries.len();
    for i in 0..n
        invariant
            n == entries@.len(),
            all == string_views(entries@),
            p == (|i: int| year@.is_prefix_of(all[i])),
            indices_where(i as nat, p).len() == 0,
    {
        assert(all[i as int] == entries@[i as int]@);
        if has_prefix(entries[i].as_str(), year) {
            let pieces = split_text(entries[i].as_str(), '/');
            proof {
                lemma_pieces_of_len(entries@[i as int]@, '/');
                lemma_indices_where_prefix(all.len(), p, (i + 1) as nat);
                assert(indices_where((i + 1) as nat, p) == indices_where(i as nat, p).push(i));
                assert(string_views(pieces@)[0] == pieces@[0]@);
            }
            return Some(pieces[0].clone());
        }
    }
    None
}

/// The first indices that satisfy a predicate are those below any bound that holds
/// them.
proof fn lemma_indices_where_prefix(n: nat, p: spec_fn(int) -> bool, m: nat)
    requires
        m <= n,
        indices_where(m, p).len() > 0,
    ensures
        indices_where(n, p).len() > 0,
        indices_where(n, p)[0] == indices_where(m, p)[0],
    decreases n,
{
    if n > m {
        lemma_indices_where_prefix((n - 1) as nat, p, m);
    }
}


/// `k` is the first version of the crate whose creation time is the greatest among
/// the crate's versions.
pub open spec fn first_newest(versions: Seq<CrateVersion>, id: Seq<char>, k: int) -> bool {
    &&& 0 <= k < versions.len()
    &&& versions[k].crate_id@ == id
    &&& forall|i: int|
        0 <= i < versions.len() && #[trigger] versions[i].crate_id@ == id ==> !text_less(
            versions[k].created_at@,
            versions[i].created_at@,
        )
    &&& forall|i: int|
        0 <= i < k && #[trigger] versions[i].crate_id@ == id ==> text_less(
            versions[i].created_at@,
            versions[k].created_at@,
        )
}

/// The latest version of a crate, stated directly: it is the first of the crate's
/// versions whose creation time is the greatest.
pub proof fn lemma_latest_index_first_newest(versions: Seq<CrateVersion>, id: Seq<char>, k: int)
    ensures
        latest_index(versions, id) == Some(k) <==> first_newest(versions, id, k),
{
    lemma_latest_is_newest(versions, id);
    if first_newest(versions, id, k) {
        assert(versions[k].crate_id@ == id);
        let j = latest_index(versions, id).unwrap();
        if j < k {
            assert(text_less(versions[j].created_at@, versions[k].created_at@));
        } else if k < j {
            assert(text_less(versions[k].created_at@, versions[j].created_at@));
        }
    }
}

/// The version that counts as a crate's latest is a version of that crate, created
/// no earlier than any other version of it, and strictly later than each version of
/// it listed before; a crate has one exactly where some version is of that crate.
pub proof fn lemma_latest_is_newest(versions: Seq<CrateVersion>, id: Seq<char>)
    ensures
        latest_index(versions, id) is Some <==> exists|i: int|
            0 <= i < versions.len() && #[trigger] versions[i].crate_id@ == id,
        latest_index(versions, id) matches Some(j) ==> {
            &&& 0 <= j < versions.len()
            &&& versions[j].crate_id@ == id
            &&& forall|i: int|
                0 <= i < versions.len() && #[trigger] versions[i].crate_id@ == id ==> !text_less(
                    versions[j].created_at@,
                    versions[i].created_at@,
                )
            &&& forall|i: int|
                0 <= i < j && #[trigger] versions[i].crate_id@ == id ==> text_less(
                    versions[i].created_at@,
                    versions[j].created_at@,
                )
        },
    decreases versions.len(),
{
    if versions.len() > 0 {
        let rest = versions.drop_last();
        let last = versions.len() - 1;
        lemma_latest_is_newest(rest, id);
        assert forall|i: int| 0 <= i < last implies #[trigger] rest[i] == versions[i] by {}
        if exists|i: int| 0 <= i < versions.len() && #[trigger] versions[i].crate_id@ == id {
            let i = choose|i: int| 0 <= i < versions.len() && #[trigger] versions[i].crate_id@ == id;
            if i < last {
                assert(rest[i].crate_id@ == id);
            }
        }
        if versions[last].crate_id@ == id {
            match latest_index(rest, id) {
                None => {
                    assert forall|i: int| 0 <= i < versions.len() && #[trigger] versions[i].crate_id@ == id implies i == last by {
                        if i < last {
                            assert(rest[i].crate_id@ == id);
                        }
                    }
                    lemma_text_less_irreflexive(versions[last].created_at@);
                },
                Some(j) => {
                    let cj = versions[j].created_at@;
                    let cl = versions[last].created_at@;
                    assert(rest[j] == versions[j]);
                    if text_less(cj, cl) {
                        lemma_text_less_irreflexive(cl);
                        assert forall|i: int|
                            0 <= i < versions.len() && #[trigger] versions[i].crate_id@ == id implies !text_less(
                            cl,
                            versions[i].created_at@,
                        ) && (i < last ==> text_less(versions[i].created_at@, cl)) by {
                            if i < last {
                                let ci = versions[i].created_at@;
                                assert(rest[i].crate_id@ == id);
                                assert(!text_less(cj, ci));
                                lemma_text_less_total(ci, cj);
                                if ci != cj {
                                    lemma_text_less_transitive(ci, cj, cl);
                                }
                                lemma_text_less_total(ci, cl);
                            }
                        }
                    } else {
                        assert forall|i: int|
                            0 <= i < versions.len() && #[trigger] versions[i].crate_id@ == id implies !text_less(
                            cj,
                            versions[i].created_at@,
                        ) by {
                            if i < last {
                                assert(rest[i].crate_id@ == id);
                            }
                        }
                        assert forall|i: int| 0 <= i < j && #[trigger] versions[i].crate_id@ == id implies text_less(
                            versions[i].created_at@,
                            cj,
                        ) by {
                            assert(rest[i].crate_id@ == id);
                        }
                    }
                },
            }
        } else {
            match latest_index(rest, id) {
                None => {},
                Some(j) => {
                    assert(rest[j] == versions[j]);
                    assert forall|i: int|
                        0 <= i < versions.len() && #[trigger] versions[i].crate_id@ == id implies !text_less(
                        versions[j].created_at@,
                        versions[i].created_at@,
                    ) by {
                        if i < last {
                            assert(rest[i].crate_id@ == id);
                        }
                    }
                    assert forall|i: int| 0 <= i < j && #[trigger] versions[i].crate_id@ == id implies text_less(
                        versions[i].created_at@,
                        versions[j].created_at@,
                    ) by {
                        assert(rest[i].crate_id@ == id);
                    }
                },
            }
        }
    }
}

} // verus!
