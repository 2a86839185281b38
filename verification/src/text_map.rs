//! A map keyed by texts, kept sorted by key.

use vstd::prelude::*;

use crate::text::{
    lemma_text_less_irreflexive, lemma_text_less_total, lemma_text_less_transitive,
    text_equal, text_less, text_precedes,
};

verus! {

/// A map from texts to values. Its entries stand in ascending order of their keys,
/// each key once.
pub struct TextMap<V> {
    entries: Vec<(String, V)>,
    contents: Ghost<Map<Seq<char>, V>>,
}

/// The keys of a list of entries.
pub open spec fn keys_of<V>(entries: Seq<(String, V)>) -> Seq<Seq<char>> {
    entries.map_values(|e: (String, V)| e.0@)
}

/// Keys that strictly ascend.
pub open spec fn strictly_ascending(keys: Seq<Seq<char>>) -> bool {
    forall|i: int, j: int| 0 <= i < j < keys.len() ==> text_less(#[trigger] keys[i], #[trigger] keys[j])
}

/// The map that a list of key/value pairs gives when they are inserted in turn:
/// for a key given more than once, the last value counts.
pub open spec fn map_of_pairs<V>(pairs: Seq<(Seq<char>, V)>) -> Map<Seq<char>, V>
    decreases pairs.len(),
{
    if pairs.len() == 0 {
        Map::empty()
    } else {
        map_of_pairs(pairs.drop_last()).insert(pairs.last().0, pairs.last().1)
    }
}

impl<V> TextMap<V> {
    /// What the map holds.
    pub closed spec fn view(&self) -> Map<Seq<char>, V> {
        self.contents@
    }

    /// The entries, in ascending order of their keys.
    pub closed spec fn entry_seq(&self) -> Seq<(String, V)> {
        self.entries@
    }

    /// The map's entries are sorted, and they are what the map holds.
    pub closed spec fn wf(&self) -> bool {
        &&& strictly_ascending(keys_of(self.entries@))
        &&& forall|i: int|
            0 <= i < self.entries@.len() ==> #[trigger] self.contents@.contains_key(
                self.entries@[i].0@,
            ) && self.contents@[self.entries@[i].0@] == self.entries@[i].1
        &&& forall|k: Seq<char>|
            #[trigger] self.contents@.contains_key(k) ==> exists|i: int|
                0 <= i < self.entries@.len() && #[trigger] self.entries@[i].0@ == k
    }

    /// The entries of a well formed map are its contents, in ascending order of keys.
    pub proof fn lemma_entries(&self)
        requires
            self.wf(),
        ensures
            strictly_ascending(keys_of(self.entry_seq())),
            forall|i: int|
                0 <= i < self.entry_seq().len() ==> #[trigger] self.view().contains_key(
                    self.entry_seq()[i].0@,
                ) && self.view()[self.entry_seq()[i].0@] == self.entry_seq()[i].1,
            forall|k: Seq<char>|
                #[trigger] self.view().contains_key(k) ==> exists|i: int|
                    0 <= i < self.entry_seq().len() && #[trigger] self.entry_seq()[i].0@ == k,
            self.view().dom().finite(),
            self.view().dom().len() == self.entry_seq().len(),
    {
        self.lemma_dom_is_keys();
    }

    proof fn lemma_dom_is_keys(&self)
        requires
            self.wf(),
        ensures
            self.contents@.dom() == keys_of(self.entries@).to_set(),
            self.contents@.dom().finite(),
            self.contents@.dom().len() == self.entries@.len(),
    {
        let keys = keys_of(self.entries@);
        assert forall|k: Seq<char>| self.contents@.dom().contains(k) <==> keys.to_set().contains(k) by {
            if self.contents@.contains_key(k) {
                let i = choose|i: int| 0 <= i < self.entries@.len() && #[trigger] self.entries@[i].0@ == k;
                assert(keys[i] == k);
            }
            if keys.to_set().contains(k) {
                let i = choose|i: int| 0 <= i < keys.len() && keys[i] == k;
                assert(self.entries@[i].0@ == k);
            }
        }
        assert(self.contents@.dom() =~= keys.to_set());
        assert forall|i: int, j: int| 0 <= i < keys.len() && 0 <= j < keys.len() && i != j implies keys[i] != keys[j] by {
            if i < j {
                lemma_text_less_irreflexive(keys[i]);
            } else {
                lemma_text_less_irreflexive(keys[j]);
            }
        }
        keys.unique_seq_to_set();
    }

    /// An empty map.
    pub fn new() -> (m: Self)
        ensures
            m.wf(),
            m.view() == Map::<Seq<char>, V>::empty(),
    {
        TextMap { entries: Vec::new(), contents: Ghost(Map::empty()) }
    }

    /// The number of keys.
    pub fn len(&self) -> (n: usize)
        requires
            self.wf(),
        ensures
            n == self.view().dom().len(),
    {
        proof {
            self.lemma_dom_is_keys();
        }
        self.entries.len()
    }

    /// The entries, in ascending order of their keys.
    pub fn entries(&self) -> (e: &Vec<(String, V)>)
        ensures
            e@ == self.entry_seq(),
    {
        &self.entries
    }

    /// Where `key` stands among the entries, or where it would go.
    fn search(&self, key: &str) -> (r: (bool, usize))
        requires
            self.wf(),
        ensures
            r.1 <= self.entries@.len(),
            r.0 ==> r.1 < self.entries@.len() && self.entries@[r.1 as int].0@ == key@,
            forall|i: int| 0 <= i < r.1 ==> text_less(#[trigger] self.entries@[i].0@, key@),
            forall|i: int|
                (if r.0 { r.1 + 1 } else { r.1 as int }) <= i < self.entries@.len() ==> text_less(
                    key@,
                    #[trigger] self.entries@[i].0@,
                ),
    {
        let mut lo: usize = 0;
        let mut hi: usize = self.entries.len();
        let ghost keys = keys_of(self.entries@);
        while lo < hi
            invariant
                self.wf(),
                keys == keys_of(self.entries@),
                0 <= lo <= hi <= self.entries@.len(),
                forall|i: int| 0 <= i < lo ==> text_less(#[trigger] self.entries@[i].0@, key@),
                forall|i: int| hi <= i < self.entries@.len() ==> text_less(key@, #[trigger] self.entries@[i].0@),
            decreases hi - lo,
        {
            let mid = lo + (hi - lo) / 2;
            let k = self.entries[mid].0.as_str();
            if text_equal(k, key) {
                proof {
                    assert forall|i: int| mid + 1 <= i < self.entries@.len() implies text_less(
                        key@,
                        #[trigger] self.entries@[i].0@,
                    ) by {
                        assert(keys[mid as int] == self.entries@[mid as int].0@);
                        assert(keys[i] == self.entries@[i].0@);
                    }
                    assert forall|i: int| 0 <= i < mid implies text_less(#[trigger] self.entries@[i].0@, key@) by {
                        if i >= lo {
                            assert(keys[mid as int] == self.entries@[mid as int].0@);
                            assert(keys[i] == self.entries@[i].0@);
                        }
                    }
                }
                return (true, mid);
            }
            if text_precedes(k, key) {
                proof {
                    assert forall|i: int| 0 <= i < mid + 1 implies text_less(#[trigger] self.entries@[i].0@, key@) by {
                        if i < mid {
                            assert(keys[mid as int] == self.entries@[mid as int].0@);
                            assert(keys[i] == self.entries@[i].0@);
                            lemma_text_less_transitive(keys[i], keys[mid as int], key@);
                        }
                    }
                }
                lo = mid + 1;
            } else {
                proof {
                    lemma_text_less_total(k@, key@);
                    assert forall|i: int| mid <= i < self.entries@.len() implies text_less(key@, #[trigger] self.entries@[i].0@) by {
                        if i > mid {
                            assert(keys[mid as int] == self.entries@[mid as int].0@);
                            assert(keys[i] == self.entries@[i].0@);
                            lemma_text_less_transitive(key@, keys[mid as int], keys[i]);
                        }
                    }
                }
                hi = mid;
            }
        }
        (false, lo)
    }

    /// The value of `key`, if the map has one.
    pub fn get(&self, key: &str) -> (r: Option<&V>)
        requires
            self.wf(),
        ensures
            match r {
                Some(v) => self.view().contains_key(key@) && *v == self.view()[key@],
                None => !self.view().contains_key(key@),
            },
    {
        let (found, pos) = self.search(key);
        if found {
            proof {
                assert(self.contents@.contains_key(self.entries@[pos as int].0@));
            }
            Some(&self.entries[pos].1)
        } else {
            proof {
                if self.contents@.contains_key(key@) {
                    let i = choose|i: int| 0 <= i < self.entries@.len() && #[trigger] self.entries@[i].0@ == key@;
                    lemma_text_less_irreflexive(key@);
                    if i < pos {
                        assert(text_less(self.entries@[i].0@, key@));
                    } else {
                        assert(text_less(key@, self.entries@[i].0@));
                    }
                }
            }
            None
        }
    }

    /// Whether the map has a value for `key`.
    pub fn contains_key(&self, key: &str) -> (r: bool)
        requires
            self.wf(),
        ensures
            r == self.view().contains_key(key@),
    {
        match self.get(key) {
            Some(_) => true,
            None => false,
        }
    }

    /// Takes the value of `key` out of the map, if it has one.
    #[verifier::spinoff_prover]
    pub fn remove(&mut self, key: &str) -> (r: Option<V>)
        requires
            old(self).wf(),
        ensures
            final(self).wf(),
            final(self).view() == old(self).view().remove(key@),
            match r {
                Some(v) => old(self).view().contains_key(key@) && v == old(self).view()[key@],
                None => !old(self).view().contains_key(key@),
            },
    {
        let (found, pos) = self.search(key);
        if !found {
            proof {
                if self.contents@.contains_key(key@) {
                    let i = choose|i: int| 0 <= i < self.entries@.len() && #[trigger] self.entries@[i].0@ == key@;
                    lemma_text_less_irreflexive(key@);
                    if i < pos {
                        assert(text_less(self.entries@[i].0@, key@));
                    } else {
                        assert(text_less(key@, self.entries@[i].0@));
                    }
                }
                assert(self.contents@.remove(key@) =~= self.contents@);
            }
            return None;
        }
        proof {
            assert(self.contents@.contains_key(self.entries@[pos as int].0@));
        }
        let ghost old_entries = self.entries@;
        let ghost new_contents = self.contents@.remove(key@);
        let (_, value) = self.entries.remove(pos);
        self.contents = Ghost(new_contents);
        proof {
            let nk = keys_of(self.entries@);
            let ok = keys_of(old_entries);
            assert(self.entries@ =~= old_entries.remove(pos as int));
            assert forall|i: int, j: int| 0 <= i < j < nk.len() implies text_less(#[trigger] nk[i], #[trigger] nk[j]) by {
                let oi = if i < pos { i } else { i + 1 };
                let oj = if j < pos { j } else { j + 1 };
                assert(nk[i] == ok[oi]);
                assert(nk[j] == ok[oj]);
            }
            assert forall|i: int| 0 <= i < self.entries@.len() implies #[trigger] self.contents@.contains_key(
                self.entries@[i].0@,
            ) && self.contents@[self.entries@[i].0@] == self.entries@[i].1 by {
                let oi = if i < pos { i } else { i + 1 };
                assert(self.entries@[i] == old_entries[oi]);
                assert(ok[pos as int] == key@);
                assert(ok[oi] == old_entries[oi].0@);
                lemma_text_less_irreflexive(key@);
                if oi < pos {
                    assert(text_less(ok[oi], ok[pos as int]));
                } else {
                    assert(text_less(ok[pos as int], ok[oi]));
                }
                assert(old(self).contents@.contains_key(old_entries[oi].0@));
            }
            assert forall|kk: Seq<char>| #[trigger] self.contents@.contains_key(kk) implies exists|i: int|
                0 <= i < self.entries@.len() && #[trigger] self.entries@[i].0@ == kk by {
                let oi = choose|oi: int| 0 <= oi < old_entries.len() && #[trigger] old_entries[oi].0@ == kk;
                assert(oi != pos);
                let i = if oi < pos { oi } else { oi - 1 };
                assert(self.entries@[i] == old_entries[oi]);
            }
            assert(strictly_ascending(keys_of(self.entries@)));
        }
        Some(value)
    }

    /// Sets the value of `key`, replacing any value it had.
    pub fn insert(&mut self, key: String, value: V)
        requires
            old(self).wf(),
        ensures
            final(self).wf(),
            final(self).view() == old(self).view().insert(key@, value),
    {
        let (found, pos) = self.search(key.as_str());
        let ghost old_entries = self.entries@;
        let ghost k = key@;
        let ghost new_contents = self.contents@.insert(key@, value);
        if found {
            self.entries.remove(pos);
            self.entries.insert(pos, (key, value));
            assert(self.entries@ =~= old_entries.update(pos as int, self.entries@[pos as int]));
        } else {
            self.entries.insert(pos, (key, value));
            assert(self.entries@ =~= old_entries.insert(pos as int, self.entries@[pos as int]));
        }
        self.contents = Ghost(new_contents);
        proof {
            let nk = keys_of(self.entries@);
            let ok = keys_of(old_entries);
            assert forall|i: int, j: int| 0 <= i < j < nk.len() implies text_less(#[trigger] nk[i], #[trigger] nk[j]) by {
                if found {
                    assert(nk[i] == if i == pos { k } else { ok[i] });
                    assert(nk[j] == if j == pos { k } else { ok[j] });
                } else {
                    let oi = if i < pos { i } else { i - 1 };
                    let oj = if j < pos { j } else { j - 1 };
                    if i != pos {
                        assert(nk[i] == ok[oi]);
                    }
                    if j != pos {
                        assert(nk[j] == ok[oj]);
                    }
                    if i != pos && j != pos {
                        assert(oi < oj);
                    }
                    if i == pos {
                        assert(text_less(k, old_entries[oj].0@));
                    }
                    if j == pos {
                        assert(text_less(old_entries[oi].0@, k));
                    }
                }
            }
            assert forall|i: int| 0 <= i < self.entries@.len() implies #[trigger] self.contents@.contains_key(
                self.entries@[i].0@,
            ) && self.contents@[self.entries@[i].0@] == self.entries@[i].1 by {
                if i != pos {
                    let oi = if found || i < pos { i } else { i - 1 };
                    assert(self.entries@[i] == old_entries[oi]);
                    lemma_text_less_irreflexive(k);
                    if found {
                        assert(ok[pos as int] == k);
                        assert(ok[oi] == old_entries[oi].0@);
                        if oi < pos {
                            assert(text_less(ok[oi], ok[pos as int]));
                        } else {
                            assert(text_less(ok[pos as int], ok[oi]));
                        }
                    } else {
                        if oi < pos {
                            assert(text_less(old_entries[oi].0@, k));
                        } else {
                            assert(text_less(k, old_entries[oi].0@));
                        }
                    }
                    assert(old_entries[oi].0@ != k);
                    assert(old(self).contents@.contains_key(old_entries[oi].0@));
                } else {
                    assert(self.entries@[i].0@ == k);
                }
            }
            assert forall|kk: Seq<char>| #[trigger] self.contents@.contains_key(kk) implies exists|i: int|
                0 <= i < self.entries@.len() && #[trigger] self.entries@[i].0@ == kk by {
                if kk == k {
                    assert(self.entries@[pos as int].0@ == kk);
                } else {
                    let oi = choose|oi: int| 0 <= oi < old_entries.len() && #[trigger] old_entries[oi].0@ == kk;
                    let i = if found || oi < pos { oi } else { oi + 1 };
                    assert(self.entries@[i] == old_entries[oi]);
                }
            }
        }
    }
}


/// A key that a list of pairs gives a value to is in their map, with the value of
/// the last pair that has that key; a key that no pair has is not.
pub proof fn lemma_map_of_pairs<V>(pairs: Seq<(Seq<char>, V)>, k: Seq<char>)
    ensures
        map_of_pairs(pairs).contains_key(k) <==> exists|i: int| 0 <= i < pairs.len() && #[trigger] pairs[i].0 == k,
        map_of_pairs(pairs).contains_key(k) ==> exists|i: int|
            0 <= i < pairs.len() && #[trigger] pairs[i].0 == k && map_of_pairs(pairs)[k] == pairs[i].1
                && forall|j: int| i < j < pairs.len() ==> #[trigger] pairs[j].0 != k,
    decreases pairs.len(),
{
    if pairs.len() > 0 {
        let rest = pairs.drop_last();
        lemma_map_of_pairs(rest, k);
        let n = pairs.len() - 1;
        if pairs.last().0 == k {
            assert(pairs[n].0 == k);
        } else {
            assert forall|i: int| 0 <= i < rest.len() implies #[trigger] rest[i] == pairs[i] by {}
            if map_of_pairs(pairs).contains_key(k) {
                let i = choose|i: int|
                    0 <= i < rest.len() && #[trigger] rest[i].0 == k && map_of_pairs(rest)[k] == rest[i].1
                        && forall|j: int| i < j < rest.len() ==> #[trigger] rest[j].0 != k;
                assert(pairs[i] == rest[i]);
                assert forall|j: int| i < j < pairs.len() implies #[trigger] pairs[j].0 != k by {
                    if j < n {
                        assert(pairs[j] == rest[j]);
                    }
                }
            }
            if exists|i: int| 0 <= i < pairs.len() && #[trigger] pairs[i].0 == k {
                let i = choose|i: int| 0 <= i < pairs.len() && #[trigger] pairs[i].0 == k;
                assert(rest[i].0 == k);
            }
        }
    }
}


/// A set of texts.
pub struct TextSet {
    members: TextMap<bool>,
}

impl TextSet {
    /// The texts of the set.
    pub closed spec fn view(&self) -> Set<Seq<char>> {
        self.members.view().dom()
    }

    /// The set is well formed.
    pub closed spec fn wf(&self) -> bool {
        self.members.wf()
    }

    /// An empty set.
    pub fn new() -> (s: Self)
        ensures
            s.wf(),
            s.view() == Set::<Seq<char>>::empty(),
    {
        let s = TextSet { members: TextMap::new() };
        assert(s.view() =~= Set::<Seq<char>>::empty());
        s
    }

    /// Whether the set holds `text`.
    pub fn contains(&self, text: &str) -> (r: bool)
        requires
            self.wf(),
        ensures
            r == self.view().contains(text@),
    {
        self.members.contains_key(text)
    }

    /// Adds `text` to the set.
    pub fn insert(&mut self, text: &str)
        requires
            old(self).wf(),
        ensures
            final(self).wf(),
            final(self).view() == old(self).view().insert(text@),
    {
        self.members.insert(String::from_str(text), true);
        assert(self.view() =~= old(self).view().insert(text@));
    }
}


} // verus!
