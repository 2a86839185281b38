//! The editions and Rust versions that the manifests of the crates declare.

use vstd::prelude::*;

use crate::crates::Crate;
use crate::pages::or_na;
use crate::rustfmt::{count_texts, lemma_occurrences_push, occurrences, string_views};
use crate::text::text_less;
use crate::text_map::{keys_of, strictly_ascending, TextMap};

verus! {

/// A field of the manifest that names a version.
#[derive(Clone, Copy, PartialEq, Eq, Structural)]
pub enum VersionField {
    /// `edition`.
    Edition,
    /// `rust_version`.
    RustVersion,
    /// `rust-version`.
    RustDashVersion,
}

/// The version that a crate's manifest declares in the field, or `na`.
pub open spec fn version_key(field: VersionField, c: Crate) -> Seq<char> {
    match field {
        VersionField::Edition => or_na(c.cargo.package.edition),
        VersionField::RustVersion => or_na(c.cargo.package.rust_version),
        VersionField::RustDashVersion => or_na(c.cargo.package.rust_dash_version),
    }
}

/// The versions that the crates declare in the field, in order.
pub open spec fn version_keys(crates: Seq<Crate>, field: VersionField) -> Seq<Seq<char>> {
    crates.map_values(|c: Crate| version_key(field, c))
}

fn version_of(field: VersionField, krate: &Crate) -> (v: String)
    ensures
        v@ == version_key(field, *krate),
{
    let declared = match field {
        VersionField::Edition => &krate.cargo.package.edition,
        VersionField::RustVersion => &krate.cargo.package.rust_version,
        VersionField::RustDashVersion => &krate.cargo.package.rust_dash_version,
    };
    match declared {
        Some(s) => s.clone(),
        None => String::from_str("na"),
    }
}

/// Counts the crates by the version that they declare in the field: the map has
/// each such version (`na` for none), with its number of crates.
pub fn count_versions(crates: &Vec<Crate>, field: VersionField) -> (counts: TextMap<u32>)
    requires
        crates@.len() <= u32::MAX,
    ensures
        counts.wf(),
        forall|k: Seq<char>| #[trigger] counts.view().contains_key(k) <==> version_keys(crates@, field).contains(k),
        forall|k: Seq<char>|
            #[trigger] counts.view().contains_key(k) ==> counts.view()[k] == occurrences(
                version_keys(crates@, field),
                k,
            ),
{
    let mut keys: Vec<String> = Vec::new();
    for i in 0..crates.len()
        invariant
            string_views(keys@) =~= version_keys(crates@, field).take(i as int),
    {
        let ghost before = keys@;
        keys.push(version_of(field, &crates[i]));
        proof {
            let all = version_keys(crates@, field);
            assert(all.take(i + 1) =~= all.take(i as int).push(all[i as int]));
            assert(string_views(keys@) =~= string_views(before).push(all[i as int]));
        }
    }
    assert(string_views(keys@) =~= version_keys(crates@, field));
    count_texts(&keys)
}

/// Whether a declared version is counted under `v`: a declared version under its
/// text, a missing one under `na`.
pub open spec fn counted_under(declared: Option<String>, v: Seq<char>) -> bool {
    match declared {
        Some(s) => s@ == v,
        None => v == "na"@,
    }
}

proof fn lemma_version_keys_push(crates: Seq<Crate>, c: Crate, field: VersionField, v: Seq<char>)
    ensures
        occurrences(version_keys(crates.push(c), field), v) == occurrences(version_keys(crates, field), v)
            + if version_key(field, c) == v { 1int } else { 0int },
{
    assert(version_keys(crates.push(c), field) =~= version_keys(crates, field).push(version_key(field, c)));
    lemma_occurrences_push(version_keys(crates, field), version_key(field, c), v);
}

/// Counting by edition: one more crate adds one to the count of the edition that
/// its manifest declares (of `na` where it declares none), and nothing to any other.
pub proof fn lemma_edition_counted(crates: Seq<Crate>, c: Crate, v: Seq<char>)
    ensures
        occurrences(version_keys(crates.push(c), VersionField::Edition), v) == occurrences(
            version_keys(crates, VersionField::Edition),
            v,
        ) + if counted_under(c.cargo.package.edition, v) { 1int } else { 0int },
{
    lemma_version_keys_push(crates, c, VersionField::Edition, v);
}

/// Counting by `rust_version`: one more crate adds one to the count of the value of
/// its manifest's `rust_version` field (of `na` where it has none), and nothing to
/// any other, whatever its `rust-version` field holds.
pub proof fn lemma_rust_version_counted(crates: Seq<Crate>, c: Crate, v: Seq<char>)
    ensures
        occurrences(version_keys(crates.push(c), VersionField::RustVersion), v) == occurrences(
            version_keys(crates, VersionField::RustVersion),
            v,
        ) + if counted_under(c.cargo.package.rust_version, v) { 1int } else { 0int },
{
    lemma_version_keys_push(crates, c, VersionField::RustVersion, v);
}

/// Counting by `rust-version`: one more crate adds one to the count of the value of
/// its manifest's `rust-version` field (of `na` where it has none), and nothing to
/// any other, whatever its `rust_version` field holds.
pub proof fn lemma_rust_dash_version_counted(crates: Seq<Crate>, c: Crate, v: Seq<char>)
    ensures
        occurrences(version_keys(crates.push(c), VersionField::RustDashVersion), v) == occurrences(
            version_keys(crates, VersionField::RustDashVersion),
            v,
        ) + if counted_under(c.cargo.package.rust_dash_version, v) { 1int } else { 0int },
{
    lemma_version_keys_push(crates, c, VersionField::RustDashVersion, v);
}

/// How a version is shown: as it is, or `na` where it is empty.
pub open spec fn shown_version(v: Seq<char>) -> Seq<char> {
    if v.len() == 0 {
        "na"@
    } else {
        v
    }
}

/// The counted versions as rows of version, shown version and count, from the
/// greatest version to the smallest, each version once.
pub fn vectorize(counts: &TextMap<u32>) -> (rows: Vec<(String, String, u32)>)
    requires
        counts.wf(),
    ensures
        forall|k: int|
            0 <= k < rows@.len() ==> counts.view().contains_key((#[trigger] rows@[k]).0@) && rows@[k].2
                == counts.view()[rows@[k].0@] && rows@[k].1@ == shown_version(rows@[k].0@),
        forall|v: Seq<char>| #[trigger] counts.view().contains_key(v) ==> exists|k: int|
            0 <= k < rows@.len() && #[trigger] rows@[k].0@ == v,
        forall|i: int, j: int| 0 <= i < j < rows@.len() ==> text_less((#[trigger] rows@[j]).0@, (#[trigger] rows@[i]).0@),
{
    let entries = counts.entries();
    proof {
        counts.lemma_entries();
        reveal_strlit("na");
    }
    let n = entries.len();
    let mut rows: Vec<(String, String, u32)> = Vec::new();
    let mut left = n;
    while left > 0
        invariant
            n == entries@.len(),
            entries@ == counts.entry_seq(),
            left <= n,
            rows@.len() == n - left,
            forall|k: int|
                0 <= k < rows@.len() ==> (#[trigger] rows@[k]).0@ == entries@[n - 1 - k].0@ && rows@[k].2
                    == entries@[n - 1 - k].1 && rows@[k].1@ == shown_version(rows@[k].0@),
        decreases left,
    {
        left = left - 1;
        let key = &entries[left].0;
        let shown = if key.unicode_len() == 0 {
            String::from_str("na")
        } else {
            key.clone()
        };
        rows.push((key.clone(), shown, entries[left].1));
    }
    proof {
        let keys = keys_of(entries@);
        assert(strictly_ascending(keys));
        assert forall|k: int| 0 <= k < rows@.len() implies counts.view().contains_key((#[trigger] rows@[k]).0@)
            && rows@[k].2 == counts.view()[rows@[k].0@] && rows@[k].1@ == shown_version(rows@[k].0@) by {
            assert(counts.view().contains_key(entries@[n - 1 - k].0@));
        }
        assert forall|v: Seq<char>| #[trigger] counts.view().contains_key(v) implies exists|k: int|
            0 <= k < rows@.len() && #[trigger] rows@[k].0@ == v by {
            let e = choose|e: int| 0 <= e < entries@.len() && #[trigger] entries@[e].0@ == v;
            assert(rows@[n - 1 - e].0@ == v);
        }
        assert forall|i: int, j: int| 0 <= i < j < rows@.len() implies text_less(
            (#[trigger] rows@[j]).0@,
            (#[trigger] rows@[i]).0@,
        ) by {
            assert(keys[n - 1 - j] == rows@[j].0@);
            assert(keys[n - 1 - i] == rows@[i].0@);
        }
    }
    rows
}

} // verus!
