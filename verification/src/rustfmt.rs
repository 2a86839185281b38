//! The collected `rustfmt` settings of the crates: reading them from text, counting
//! them by option and by option and value, and picking the crates for each page.

use vstd::prelude::*;

use crate::pages::{indices_where, lemma_indices_where};
use crate::crates::lemma_filter_push;
use crate::text::{lemma_text_less_irreflexive, lemma_text_less_transitive, push_char, text_equal, text_less};
use crate::order::{apply_order, stable_order};
use crate::text_map::{keys_of, strictly_ascending, TextMap};

verus! {

/// The pieces of `s` between the separators, as `str::split` gives them: one more
/// piece than there are separators, empty pieces included.
pub open spec fn pieces_of(s: Seq<char>, sep: char) -> Seq<Seq<char>>
    decreases s.len(),
{
    if s.len() == 0 {
        seq![Seq::empty()]
    } else {
        let p = pieces_of(s.drop_last(), sep);
        if s.last() == sep {
            p.push(Seq::empty())
        } else {
            p.update(p.len() - 1, p.last().push(s.last()))
        }
    }
}

/// There is always at least one piece.
pub proof fn lemma_pieces_of_len(s: Seq<char>, sep: char)
    ensures
        pieces_of(s, sep).len() >= 1,
    decreases s.len(),
{
    if s.len() > 0 {
        lemma_pieces_of_len(s.drop_last(), sep);
    }
}

/// The views of a list of texts.
pub open spec fn string_views(v: Seq<String>) -> Seq<Seq<char>> {
    v.map_values(|s: String| s@)
}

/// Splits a text at each separator (see `pieces_of`).
pub fn split_text(text: &str, sep: char) -> (pieces: Vec<String>)
    ensures
        string_views(pieces@) == pieces_of(text@, sep),
{
    let mut pieces: Vec<String> = Vec::new();
    let mut current = String::new();
    let ghost mut seen: Seq<char> = Seq::empty();
    for c in it: text.chars()
        invariant
            it.seq() == text@,
            seen == it.seq().take(it.index()),
            string_views(pieces@).push(current@) == pieces_of(seen, sep),
    {
        let ghost next = seen.push(c);
        proof {
            lemma_pieces_of_len(seen, sep);
            assert(next.drop_last() =~= seen);
            assert(it.seq().take(it.index() + 1) =~= next);
        }
        if c == sep {
            pieces.push(current);
            current = String::new();
            proof {
                assert(string_views(pieces@).push(current@) =~= pieces_of(seen, sep).push(Seq::empty()));
                assert(pieces_of(next, sep) == pieces_of(seen, sep).push(Seq::empty()));
            }
        } else {
            push_char(&mut current, c);
            proof {
                let p = pieces_of(seen, sep);
                assert(string_views(pieces@).push(current@) =~= p.update(p.len() - 1, p.last().push(c)));
                assert(pieces_of(next, sep) == p.update(p.len() - 1, p.last().push(c)));
            }
        }
        proof {
            seen = next;
        }
    }
    pieces.push(current);
    proof {
        assert(seen =~= text@);
        assert(string_views(pieces@) =~= pieces_of(text@, sep));
    }
    pieces
}


/// A setting as collected: option, value and crate name.
pub type Setting = (String, String, String);

/// The setting on a line `option,value,crate`; a line with another number of
/// comma-separated parts, an empty one among them, holds none.
pub open spec fn setting_of(line: Seq<char>) -> Option<(Seq<char>, Seq<char>, Seq<char>)> {
    let parts = pieces_of(line, ',');
    if parts.len() == 3 {
        Some((parts[0], parts[1], parts[2]))
    } else {
        None
    }
}

/// The settings on the lines, in order.
pub open spec fn settings_in(lines: Seq<Seq<char>>) -> Seq<(Seq<char>, Seq<char>, Seq<char>)>
    decreases lines.len(),
{
    if lines.len() == 0 {
        Seq::empty()
    } else {
        let rest = settings_in(lines.drop_last());
        match setting_of(lines.last()) {
            Some(t) => rest.push(t),
            None => rest,
        }
    }
}

/// The views of settings.
pub open spec fn setting_views(rows: Seq<Setting>) -> Seq<(Seq<char>, Seq<char>, Seq<char>)> {
    rows.map_values(|r: Setting| (r.0@, r.1@, r.2@))
}

/// Reads the collected settings, one per line (see `setting_of`).
pub fn parse_rustfmt(content: &str) -> (rows: Vec<Setting>)
    ensures
        setting_views(rows@) == settings_in(pieces_of(content@, '\n')),
{
    let lines = split_text(content, '\n');
    let mut rows: Vec<Setting> = Vec::new();
    let n = lines.len();
    for i in 0..n
        invariant
            n == lines@.len(),
            string_views(lines@) == pieces_of(content@, '\n'),
            setting_views(rows@) == settings_in(string_views(lines@).take(i as int)),
    {
        let ghost line = lines@[i as int]@;
        proof {
            assert(string_views(lines@).take(i + 1).drop_last() =~= string_views(lines@).take(i as int));
            assert(string_views(lines@).take(i + 1).last() == line);
        }
        let parts = split_text(lines[i].as_str(), ',');
        if parts.len() == 3 {
            let ghost before = rows@;
            rows.push((parts[0].clone(), parts[1].clone(), parts[2].clone()));
            proof {
                assert(setting_views(rows@) =~= setting_views(before).push((parts@[0]@, parts@[1]@, parts@[2]@)));
                assert(string_views(parts@)[0] == parts@[0]@);
                assert(string_views(parts@)[1] == parts@[1]@);
                assert(string_views(parts@)[2] == parts@[2]@);
            }
        }
    }
    assert(string_views(lines@).take(n as int) =~= string_views(lines@));
    rows
}


/// The number of times a text occurs in a list.
pub open spec fn occurrences(texts: Seq<Seq<char>>, t: Seq<char>) -> nat {
    indices_where(texts.len(), at_text(texts, t)).len()
}

/// Whether the text at an index of a list is a given text.
pub open spec fn at_text(texts: Seq<Seq<char>>, t: Seq<char>) -> spec_fn(int) -> bool {
    |i: int| texts[i] == t
}

/// Counts the texts of a list: the map has each text of the list, with the number
/// of times it occurs.
pub fn count_texts(texts: &Vec<String>) -> (counts: TextMap<u32>)
    requires
        texts@.len() <= u32::MAX,
    ensures
        counts.wf(),
        forall|t: Seq<char>| #[trigger] counts.view().contains_key(t) <==> string_views(texts@).contains(t),
        forall|t: Seq<char>|
            #[trigger] counts.view().contains_key(t) ==> counts.view()[t] == occurrences(string_views(texts@), t),
{
    let ghost tv = string_views(texts@);
    let mut counts: TextMap<u32> = TextMap::new();
    let n = texts.len();
    for i in 0..n
        invariant
            n == texts@.len(),
            n <= u32::MAX,
            tv == string_views(texts@),
            counts.wf(),
            forall|t: Seq<char>|
                #[trigger] counts.view().contains_key(t) <==> exists|j: int| 0 <= j < i && #[trigger] tv[j] == t,
            forall|t: Seq<char>|
                #[trigger] counts.view().contains_key(t) ==> counts.view()[t] == indices_where(
                    i as nat,
                    |j: int| tv[j] == t,
                ).len() && counts.view()[t] <= i,
    {
        let key = &texts[i];
        let ghost before = counts.view();
        let next = match counts.get(key.as_str()) {
            Some(c) => *c + 1,
            None => 1,
        };
        counts.insert(key.clone(), next);
        proof {
            assert(tv[i as int] == key@);
            assert forall|t: Seq<char>| #[trigger] counts.view().contains_key(t) <==> exists|j: int|
                0 <= j < i + 1 && #[trigger] tv[j] == t by {
                if t != key@ {
                    if exists|j: int| 0 <= j < i + 1 && #[trigger] tv[j] == t {
                        let j = choose|j: int| 0 <= j < i + 1 && #[trigger] tv[j] == t;
                        assert(j < i);
                    }
                }
            }
            assert forall|t: Seq<char>| #[trigger] counts.view().contains_key(t) implies counts.view()[t]
                == indices_where((i + 1) as nat, |j: int| tv[j] == t).len() && counts.view()[t] <= i + 1 by {
                if t == key@ && !before.contains_key(t) {
                    lemma_indices_where(i as nat, |j: int| tv[j] == t);
                    if indices_where(i as nat, |j: int| tv[j] == t).len() > 0 {
                        let j = indices_where(i as nat, |j: int| tv[j] == t)[0];
                        assert(tv[j as int] == t);
                    }
                }
            }
        }
    }
    proof {
        assert forall|t: Seq<char>| #[trigger] counts.view().contains_key(t) <==> tv.contains(t) by {
            if tv.contains(t) {
                let j = choose|j: int| 0 <= j < tv.len() && tv[j] == t;
                assert(tv[j] == t);
            }
        }
    }
    counts
}

/// The options of the settings, in order.
pub open spec fn options_of(rows: Seq<(Seq<char>, Seq<char>, Seq<char>)>) -> Seq<Seq<char>> {
    rows.map_values(|r: (Seq<char>, Seq<char>, Seq<char>)| r.0)
}

/// The settings of an option, in order.
pub open spec fn settings_for(
    rows: Seq<(Seq<char>, Seq<char>, Seq<char>)>,
    option: Seq<char>,
) -> Seq<(Seq<char>, Seq<char>, Seq<char>)> {
    rows.filter(|r: (Seq<char>, Seq<char>, Seq<char>)| r.0 == option)
}

/// The values set for an option, in order.
pub open spec fn values_of(rows: Seq<(Seq<char>, Seq<char>, Seq<char>)>, option: Seq<char>) -> Seq<Seq<char>> {
    settings_for(rows, option).map_values(|r: (Seq<char>, Seq<char>, Seq<char>)| r.1)
}

/// The names of the crates that set an option, in order.
pub open spec fn crates_setting(rows: Seq<(Seq<char>, Seq<char>, Seq<char>)>, option: Seq<char>) -> Seq<Seq<char>> {
    settings_for(rows, option).map_values(|r: (Seq<char>, Seq<char>, Seq<char>)| r.2)
}

/// The names of the crates that set an option to a value, in order.
pub open spec fn crates_setting_to(
    rows: Seq<(Seq<char>, Seq<char>, Seq<char>)>,
    option: Seq<char>,
    value: Seq<char>,
) -> Seq<Seq<char>> {
    rows.filter(|r: (Seq<char>, Seq<char>, Seq<char>)| r.0 == option && r.1 == value).map_values(
        |r: (Seq<char>, Seq<char>, Seq<char>)| r.2,
    )
}

/// The number of settings of an option.
pub open spec fn option_count(rows: Seq<(Seq<char>, Seq<char>, Seq<char>)>, option: Seq<char>) -> nat {
    occurrences(options_of(rows), option)
}

/// The number of settings of an option to a value.
pub open spec fn pair_count(
    rows: Seq<(Seq<char>, Seq<char>, Seq<char>)>,
    option: Seq<char>,
    value: Seq<char>,
) -> nat {
    occurrences(values_of(rows, option), value)
}

/// Counts the settings of each option: the map has the options that the settings
/// name, each with its number of settings.
pub fn count_by_option(rows: &Vec<Setting>) -> (counts: TextMap<u32>)
    requires
        rows@.len() <= u32::MAX,
    ensures
        counts.wf(),
        forall|o: Seq<char>|
            #[trigger] counts.view().contains_key(o) <==> options_of(setting_views(rows@)).contains(o),
        forall|o: Seq<char>|
            #[trigger] counts.view().contains_key(o) ==> counts.view()[o] == option_count(
                setting_views(rows@),
                o,
            ),
{
    let mut options: Vec<String> = Vec::new();
    for i in 0..rows.len()
        invariant
            string_views(options@) =~= options_of(setting_views(rows@)).take(i as int),
    {
        let ghost before = options@;
        options.push(rows[i].0.clone());
        proof {
            let all = options_of(setting_views(rows@));
            assert(setting_views(rows@)[i as int].0 == rows@[i as int].0@);
            assert(all[i as int] == rows@[i as int].0@);
            assert(all.take(i + 1) =~= all.take(i as int).push(all[i as int]));
            assert(string_views(options@) =~= string_views(before).push(rows@[i as int].0@));
        }
    }
    assert(string_views(options@) =~= options_of(setting_views(rows@)));
    count_texts(&options)
}

/// The values set for an option, in order (see `values_of`).
pub fn values_for(rows: &Vec<Setting>, option: &str) -> (values: Vec<String>)
    ensures
        string_views(values@) == values_of(setting_views(rows@), option@),
{
    let ghost sv = setting_views(rows@);
    let ghost pred = |r: (Seq<char>, Seq<char>, Seq<char>)| r.0 == option@;
    let mut values: Vec<String> = Vec::new();
    for i in 0..rows.len()
        invariant
            sv == setting_views(rows@),
            pred == (|r: (Seq<char>, Seq<char>, Seq<char>)| r.0 == option@),
            string_views(values@) == sv.take(i as int).filter(pred).map_values(
                |r: (Seq<char>, Seq<char>, Seq<char>)| r.1,
            ),
    {
        let ghost before = values@;
        let ghost row = sv[i as int];
        proof {
            assert(row == (rows@[i as int].0@, rows@[i as int].1@, rows@[i as int].2@));
            assert(sv.take(i + 1) =~= sv.take(i as int).push(row));
            lemma_filter_push(sv.take(i as int), row, pred);
        }
        if text_equal(rows[i].0.as_str(), option) {
            values.push(rows[i].1.clone());
            proof {
                assert(pred(row));
                let f = sv.take(i as int).filter(pred);
                assert(f.push(row).map_values(|r: (Seq<char>, Seq<char>, Seq<char>)| r.1) =~= f.map_values(
                    |r: (Seq<char>, Seq<char>, Seq<char>)| r.1,
                ).push(row.1));
                assert(string_views(values@) =~= string_views(before).push(row.1));
            }
        } else {
            proof {
                assert(!pred(row));
            }
        }
    }
    assert(sv.take(rows@.len() as int) =~= sv);
    values
}


fn reversed<T>(items: Vec<T>) -> (r: Vec<T>)
    ensures
        r@.len() == items@.len(),
        forall|k: int| 0 <= k < r@.len() ==> #[trigger] r@[k] == items@[items@.len() - 1 - k],
{
    let ghost initial = items@;
    let n = items.len();
    let mut items = items;
    let mut r: Vec<T> = Vec::new();
    while items.len() > 0
        invariant
            n == initial.len(),
            items@.len() + r@.len() == n,
            items@ =~= initial.take(items@.len() as int),
            forall|p: int| 0 <= p < r@.len() ==> #[trigger] r@[p] == initial[n - 1 - p],
        decreases items@.len(),
    {
        match items.pop() {
            Some(x) => r.push(x),
            None => {},
        }
        assert(items@ =~= initial.take(items@.len() as int));
    }
    r
}

/// `list` holds the options of `counts` with their counts, each once, the most
/// used first.
pub open spec fn by_count_fits(list: Seq<(String, u32)>, counts: Map<Seq<char>, u32>) -> bool {
    &&& forall|k: int|
        0 <= k < list.len() ==> counts.contains_key((#[trigger] list[k]).0@) && list[k].1 == counts[list[k].0@]
    &&& forall|o: Seq<char>| #[trigger] counts.contains_key(o) ==> exists|k: int| 0 <= k < list.len() && #[trigger] list[k].0@ == o
    &&& forall|i: int, j: int| 0 <= i < j < list.len() ==> (#[trigger] list[i]).0@ != (#[trigger] list[j]).0@
    &&& forall|i: int, j: int| 0 <= i < j < list.len() ==> (#[trigger] list[i]).1 >= (#[trigger] list[j]).1
}

/// The options with their counts, the most used first (see `by_count_fits`).
pub fn options_by_count(counts: &TextMap<u32>) -> (list: Vec<(String, u32)>)
    requires
        counts.wf(),
    ensures
        by_count_fits(list@, counts.view()),
{
    let entries = counts.entries();
    proof {
        counts.lemma_entries();
    }
    let mut pairs: Vec<(String, u32)> = Vec::new();
    let mut keys: Vec<(u64, String)> = Vec::new();
    for i in 0..entries.len()
        invariant
            entries@ == counts.entry_seq(),
            pairs@.len() == i,
            keys@.len() == i,
            forall|k: int|
                0 <= k < i ==> (#[trigger] pairs@[k]).0@ == entries@[k].0@ && pairs@[k].1 == entries@[k].1
                    && crate::order::key_of(keys@[k]) == (pairs@[k].1 as int, Seq::<char>::empty()),
    {
        pairs.push((entries[i].0.clone(), entries[i].1));
        keys.push((entries[i].1 as u64, String::new()));
    }
    let order = stable_order(&keys, false);
    let ghost unsorted = pairs@;
    let ascending = apply_order(pairs, &order);
    let list = reversed(ascending);
    proof {
        let n = unsorted.len();
        assert(crate::text_map::strictly_ascending(crate::text_map::keys_of(entries@)));
        assert forall|k: int| 0 <= k < list@.len() implies #[trigger] list@[k] == unsorted[order@[n - 1 - k] as int] by {}
        assert forall|k: int| 0 <= k < list@.len() implies counts.view().contains_key((#[trigger] list@[k]).0@)
            && list@[k].1 == counts.view()[list@[k].0@] by {
            let e = order@[n - 1 - k] as int;
            assert(counts.view().contains_key(entries@[e].0@));
        }
        assert forall|o: Seq<char>| #[trigger] counts.view().contains_key(o) implies exists|k: int|
            0 <= k < list@.len() && #[trigger] list@[k].0@ == o by {
            let e = choose|e: int| 0 <= e < entries@.len() && #[trigger] entries@[e].0@ == o;
            assert(order@.contains(e as usize)) by {
                crate::order::lemma_permutation_covers(order@, n, e as usize);
            }
            let p = choose|p: int| 0 <= p < order@.len() && order@[p] == e as usize;
            assert(list@[n - 1 - p].0@ == o);
        }
        assert forall|i: int, j: int| 0 <= i < j < list@.len() implies (#[trigger] list@[i]).0@ != (#[trigger] list@[j]).0@ by {
            let a = order@[n - 1 - i] as int;
            let b = order@[n - 1 - j] as int;
            assert(a != b);
            if a < b {
                assert(crate::text::text_less(crate::text_map::keys_of(entries@)[a], crate::text_map::keys_of(entries@)[b]));
                crate::text::lemma_text_less_irreflexive(entries@[a].0@);
            } else {
                assert(crate::text::text_less(crate::text_map::keys_of(entries@)[b], crate::text_map::keys_of(entries@)[a]));
                crate::text::lemma_text_less_irreflexive(entries@[a].0@);
            }
        }
        assert forall|i: int, j: int| 0 <= i < j < list@.len() implies (#[trigger] list@[i]).1 >= (#[trigger] list@[j]).1 by {
            assert(crate::order::may_precede(
                crate::order::key_of(keys@[order@[n - 1 - j] as int]),
                crate::order::key_of(keys@[order@[n - 1 - i] as int]),
                false,
            ));
        }
    }
    list
}


/// The value of a setting is among the values set for its option.
proof fn lemma_value_listed(rows: Seq<(Seq<char>, Seq<char>, Seq<char>)>, i: int)
    requires
        0 <= i < rows.len(),
    ensures
        values_of(rows, rows[i].0).contains(rows[i].1),
{
    let pred = |r: (Seq<char>, Seq<char>, Seq<char>)| r.0 == rows[i].0;
    rows.lemma_filter_contains(pred, i);
    let f = rows.filter(pred);
    let k = choose|k: int| 0 <= k < f.len() && f[k] == rows[i];
    assert(values_of(rows, rows[i].0)[k] == rows[i].1);
}

/// Of two different keys in a strictly ascending list, the one further on is not
/// smaller.
proof fn lemma_ascending_keys(keys: Seq<Seq<char>>, i: int, j: int)
    requires
        strictly_ascending(keys),
        0 <= i <= j < keys.len(),
    ensures
        !text_less(keys[j], keys[i]),
        i < j ==> keys[i] != keys[j],
{
    lemma_text_less_irreflexive(keys[i]);
    if i < j {
        assert(text_less(keys[i], keys[j]));
        if text_less(keys[j], keys[i]) {
            lemma_text_less_transitive(keys[i], keys[j], keys[i]);
        }
    }
}

/// The list has an entry for the option and value.
pub open spec fn pair_listed(list: Seq<(String, String, u32)>, option: Seq<char>, value: Seq<char>) -> bool {
    exists|k: int| 0 <= k < list.len() && (#[trigger] list[k]).0@ == option && list[k].1@ == value
}

/// `list` holds each pair of option and value that the settings set, once, with its
/// number of settings, in the order of the options.
pub open spec fn pairs_fit(list: Seq<(String, String, u32)>, rows: Seq<(Seq<char>, Seq<char>, Seq<char>)>) -> bool {
    &&& forall|k: int|
        0 <= k < list.len() ==> values_of(rows, (#[trigger] list[k]).0@).contains(list[k].1@) && list[k].2
            == pair_count(rows, list[k].0@, list[k].1@)
    &&& forall|i: int| 0 <= i < rows.len() ==> #[trigger] pair_listed(list, rows[i].0, rows[i].1)
    &&& forall|i: int, j: int|
        0 <= i < j < list.len() ==> !((#[trigger] list[i]).0@ == (#[trigger] list[j]).0@ && list[i].1@
            == list[j].1@)
    &&& forall|i: int, j: int| 0 <= i < j < list.len() ==> !text_less((#[trigger] list[j]).0@, (#[trigger] list[i]).0@)
}

/// Counts the settings of each pair of option and value (see `pairs_fit`).
pub fn count_by_pair(rows: &Vec<Setting>) -> (list: Vec<(String, String, u32)>)
    requires
        rows@.len() <= u32::MAX,
    ensures
        pairs_fit(list@, setting_views(rows@)),
{
    let ghost sv = setting_views(rows@);
    let options = count_by_option(rows);
    let entries = options.entries();
    proof {
        options.lemma_entries();
    }
    let ghost keys = keys_of(entries@);
    let mut list: Vec<(String, String, u32)> = Vec::new();
    let ghost mut owner: Seq<int> = Seq::empty();
    let m = entries.len();
    for t in 0..m
        invariant
            m == entries@.len(),
            entries@ == options.entry_seq(),
            keys == keys_of(entries@),
            strictly_ascending(keys),
            sv == setting_views(rows@),
            rows@.len() <= u32::MAX,
            owner.len() == list@.len(),
            forall|k: int| 0 <= k < list@.len() ==> 0 <= #[trigger] owner[k] < t && list@[k].0@ == keys[owner[k]],
            forall|i: int, j: int| 0 <= i < j < owner.len() ==> #[trigger] owner[i] <= #[trigger] owner[j],
            forall|i: int, j: int|
                0 <= i < j < owner.len() && #[trigger] owner[i] == #[trigger] owner[j] ==> text_less(
                    list@[i].1@,
                    list@[j].1@,
                ),
            forall|k: int|
                0 <= k < list@.len() ==> values_of(sv, (#[trigger] list@[k]).0@).contains(list@[k].1@)
                    && list@[k].2 == pair_count(sv, list@[k].0@, list@[k].1@),
            forall|t2: int, v: Seq<char>|
                0 <= t2 < t && #[trigger] values_of(sv, keys[t2]).contains(v) ==> pair_listed(list@, keys[t2], v),
    {
        let o = &entries[t].0;
        let values = values_for(rows, o.as_str());
        proof {
            assert(keys[t as int] == o@);
            let pred = |r: (Seq<char>, Seq<char>, Seq<char>)| r.0 == o@;
            sv.lemma_filter_len(pred);
            assert(settings_for(sv, o@) == sv.filter(pred));
            assert(string_views(values@).len() == values@.len());
            assert(values_of(sv, o@).len() == settings_for(sv, o@).len());
            assert(sv.len() == rows@.len());
        }
        let vc = count_texts(&values);
        let ventries = vc.entries();
        proof {
            vc.lemma_entries();
        }
        let ghost start = list@.len();
        let w = ventries.len();
        for u in 0..w
            invariant
                w == ventries@.len(),
                ventries@ == vc.entry_seq(),
                vc.wf(),
                strictly_ascending(keys_of(ventries@)),
                forall|e: int| 0 <= e < w ==> #[trigger] vc.view().contains_key(ventries@[e].0@) && vc.view()[ventries@[e].0@] == ventries@[e].1,
                forall|v: Seq<char>| #[trigger] vc.view().contains_key(v) <==> string_views(values@).contains(v),
                forall|v: Seq<char>| #[trigger] vc.view().contains_key(v) ==> vc.view()[v] == occurrences(string_views(values@), v),
                string_views(values@) == values_of(sv, o@),
                keys[t as int] == o@,
                m == entries@.len(),
                t < m,
                keys == keys_of(entries@),
                strictly_ascending(keys),
                sv == setting_views(rows@),
                owner.len() == list@.len(),
                list@.len() == start + u,
                forall|k: int| 0 <= k < start ==> 0 <= #[trigger] owner[k] < t && list@[k].0@ == keys[owner[k]],
                forall|k: int|
                    start <= k < list@.len() ==> #[trigger] owner[k] == t && list@[k].0@ == o@ && list@[k].1@
                        == ventries@[k - start].0@ && list@[k].2 == ventries@[k - start].1,
                forall|i: int, j: int| 0 <= i < j < owner.len() ==> #[trigger] owner[i] <= #[trigger] owner[j],
                forall|i: int, j: int|
                    0 <= i < j < start && #[trigger] owner[i] == #[trigger] owner[j] ==> text_less(
                        list@[i].1@,
                        list@[j].1@,
                    ),
                forall|k: int|
                    0 <= k < start ==> values_of(sv, (#[trigger] list@[k]).0@).contains(list@[k].1@)
                        && list@[k].2 == pair_count(sv, list@[k].0@, list@[k].1@),
                forall|t2: int, v: Seq<char>|
                    0 <= t2 < t && #[trigger] values_of(sv, keys[t2]).contains(v) ==> exists|k: int|
                        0 <= k < start && #[trigger] list@[k].0@ == keys[t2] && list@[k].1@ == v,
        {
            let ghost before_list = list@;
            let ghost before_owner = owner;
            list.push((o.clone(), ventries[u].0.clone(), ventries[u].1));
            proof {
                owner = owner.push(t as int);
                assert forall|k: int| 0 <= k < before_list.len() implies #[trigger] list@[k] == before_list[k]
                    && owner[k] == before_owner[k] by {}
                assert forall|k: int|
                    start <= k < list@.len() implies #[trigger] owner[k] == t && list@[k].0@ == o@ && list@[k].1@
                        == ventries@[k - start].0@ && list@[k].2 == ventries@[k - start].1 by {
                    if k < start + u {
                        assert(list@[k] == before_list[k]);
                    }
                }
                assert forall|t2: int, v: Seq<char>|
                    0 <= t2 < t && #[trigger] values_of(sv, keys[t2]).contains(v) implies exists|k: int|
                        0 <= k < start && #[trigger] list@[k].0@ == keys[t2] && list@[k].1@ == v by {
                    let k = choose|k: int| 0 <= k < start && #[trigger] before_list[k].0@ == keys[t2] && before_list[k].1@ == v;
                    assert(list@[k] == before_list[k]);
                }
                assert forall|k: int| 0 <= k < start implies 0 <= #[trigger] owner[k] < t && list@[k].0@ == keys[owner[k]] by {
                    assert(list@[k] == before_list[k]);
                }
                assert forall|k: int|
                    0 <= k < start implies values_of(sv, (#[trigger] list@[k]).0@).contains(list@[k].1@)
                        && list@[k].2 == pair_count(sv, list@[k].0@, list@[k].1@) by {
                    assert(list@[k] == before_list[k]);
                }
                assert forall|i: int, j: int|
                    0 <= i < j < start && #[trigger] owner[i] == #[trigger] owner[j] implies text_less(
                        list@[i].1@,
                        list@[j].1@,
                    ) by {
                    assert(list@[i] == before_list[i]);
                    assert(list@[j] == before_list[j]);
                }
            }
        }
        proof {
            assert forall|i: int, j: int|
                0 <= i < j < owner.len() && #[trigger] owner[i] == #[trigger] owner[j] implies text_less(
                list@[i].1@,
                list@[j].1@,
            ) by {
                if j >= start && i < start {
                    assert(owner[i] < t);
                } else if i >= start {
                    assert(text_less(keys_of(ventries@)[i - start], keys_of(ventries@)[j - start]));
                }
            }
            assert forall|k: int| 0 <= k < list@.len() implies values_of(sv, (#[trigger] list@[k]).0@).contains(list@[k].1@)
                && list@[k].2 == pair_count(sv, list@[k].0@, list@[k].1@) by {
                if k >= start {
                    let e = k - start;
                    let v = ventries@[e].0@;
                    assert(owner[k] == t);
                    assert(vc.view().contains_key(v));
                    assert(list@[k].0@ == o@ && list@[k].1@ == v);
                    assert(string_views(values@).contains(v));
                    assert(list@[k].2 == vc.view()[v]);
                    assert(pair_count(sv, o@, v) == occurrences(string_views(values@), v));
                }
            }
            assert forall|t2: int, v: Seq<char>|
                0 <= t2 < t + 1 && #[trigger] values_of(sv, keys[t2]).contains(v) implies pair_listed(
                list@,
                keys[t2],
                v,
            ) by {
                if t2 == t {
                    assert(values_of(sv, keys[t2]) == string_views(values@));
                    assert(vc.view().contains_key(v));
                    assert(vc.view().contains_key(v) ==> exists|e: int|
                        0 <= e < ventries@.len() && #[trigger] ventries@[e].0@ == v);
                    let e = choose|e: int| 0 <= e < ventries@.len() && #[trigger] ventries@[e].0@ == v;
                    assert(owner[start + e] == t);
                    assert(list@[start + e].0@ == keys[t2]);
                    assert(list@[start + e].1@ == v);
                } else {
                    let k = choose|k: int| 0 <= k < start && #[trigger] list@[k].0@ == keys[t2] && list@[k].1@ == v;
                    assert(list@[k].0@ == keys[t2] && list@[k].1@ == v);
                }
            }
        }
    }
    proof {
        assert forall|i: int| 0 <= i < sv.len() implies #[trigger] pair_listed(list@, sv[i].0, sv[i].1) by {
            lemma_value_listed(sv, i);
            assert(options_of(sv)[i] == sv[i].0);
            assert(options.view().contains_key(sv[i].0));
            let t = choose|t: int| 0 <= t < entries@.len() && #[trigger] entries@[t].0@ == sv[i].0;
            assert(keys[t] == sv[i].0);
            assert(values_of(sv, keys[t]).contains(sv[i].1));
        }
        assert forall|i: int, j: int| 0 <= i < j < list@.len() implies !((#[trigger] list@[i]).0@ == (
        #[trigger] list@[j]).0@ && list@[i].1@ == list@[j].1@) by {
            assert(owner[i] <= owner[j]);
            if owner[i] < owner[j] {
                lemma_ascending_keys(keys, owner[i], owner[j]);
            } else {
                lemma_text_less_irreflexive(list@[i].1@);
            }
        }
        assert forall|i: int, j: int| 0 <= i < j < list@.len() implies !text_less(
            (#[trigger] list@[j]).0@,
            (#[trigger] list@[i]).0@,
        ) by {
            assert(owner[i] <= owner[j]);
            lemma_ascending_keys(keys, owner[i], owner[j]);
        }
        assert(sv == setting_views(rows@));
    }
    list
}


/// The names of the crates that set an option (see `crates_setting`).
pub fn crates_with_option(rows: &Vec<Setting>, option: &str) -> (names: Vec<String>)
    ensures
        string_views(names@) == crates_setting(setting_views(rows@), option@),
{
    let ghost sv = setting_views(rows@);
    let ghost pred = |r: (Seq<char>, Seq<char>, Seq<char>)| r.0 == option@;
    let mut names: Vec<String> = Vec::new();
    for i in 0..rows.len()
        invariant
            sv == setting_views(rows@),
            pred == (|r: (Seq<char>, Seq<char>, Seq<char>)| r.0 == option@),
            string_views(names@) == sv.take(i as int).filter(pred).map_values(
                |r: (Seq<char>, Seq<char>, Seq<char>)| r.2,
            ),
    {
        let ghost before = names@;
        let ghost row = sv[i as int];
        proof {
            assert(row == (rows@[i as int].0@, rows@[i as int].1@, rows@[i as int].2@));
            assert(sv.take(i + 1) =~= sv.take(i as int).push(row));
            lemma_filter_push(sv.take(i as int), row, pred);
        }
        if text_equal(rows[i].0.as_str(), option) {
            names.push(rows[i].2.clone());
            proof {
                let f = sv.take(i as int).filter(pred);
                assert(f.push(row).map_values(|r: (Seq<char>, Seq<char>, Seq<char>)| r.2) =~= f.map_values(
                    |r: (Seq<char>, Seq<char>, Seq<char>)| r.2,
                ).push(row.2));
                assert(string_views(names@) =~= string_views(before).push(row.2));
            }
        }
    }
    assert(sv.take(rows@.len() as int) =~= sv);
    names
}

/// The names of the crates that set an option to a value (see
/// `crates_setting_to`).
pub fn crates_with_setting(rows: &Vec<Setting>, option: &str, value: &str) -> (names: Vec<String>)
    ensures
        string_views(names@) == crates_setting_to(setting_views(rows@), option@, value@),
{
    let ghost sv = setting_views(rows@);
    let ghost pred = |r: (Seq<char>, Seq<char>, Seq<char>)| r.0 == option@ && r.1 == value@;
    let mut names: Vec<String> = Vec::new();
    for i in 0..rows.len()
        invariant
            sv == setting_views(rows@),
            pred == (|r: (Seq<char>, Seq<char>, Seq<char>)| r.0 == option@ && r.1 == value@),
            string_views(names@) == sv.take(i as int).filter(pred).map_values(
                |r: (Seq<char>, Seq<char>, Seq<char>)| r.2,
            ),
    {
        let ghost before = names@;
        let ghost row = sv[i as int];
        proof {
            assert(row == (rows@[i as int].0@, rows@[i as int].1@, rows@[i as int].2@));
            assert(sv.take(i + 1) =~= sv.take(i as int).push(row));
            lemma_filter_push(sv.take(i as int), row, pred);
        }
        if text_equal(rows[i].0.as_str(), option) && text_equal(rows[i].1.as_str(), value) {
            names.push(rows[i].2.clone());
            proof {
                let f = sv.take(i as int).filter(pred);
                assert(f.push(row).map_values(|r: (Seq<char>, Seq<char>, Seq<char>)| r.2) =~= f.map_values(
                    |r: (Seq<char>, Seq<char>, Seq<char>)| r.2,
                ).push(row.2));
                assert(string_views(names@) =~= string_views(before).push(row.2));
            }
        }
    }
    assert(sv.take(rows@.len() as int) =~= sv);
    names
}


/// A setting's value as the collector writes it: without the quotes around a
/// quoted text.
pub open spec fn unquoted(value: Seq<char>) -> Seq<char> {
    if value.len() >= 2 && value[0] == '"' && value[value.len() - 1] == '"' {
        value.subrange(1, value.len() - 1)
    } else {
        value
    }
}

/// The line that the collector writes for a setting: `option,value,crate`, the
/// value unquoted.
pub open spec fn setting_line(option: Seq<char>, value: Seq<char>, name: Seq<char>) -> Seq<char> {
    option + seq![','] + unquoted(value) + seq![','] + name
}

/// The line that the collector writes for a setting (see `setting_line`); `value`
/// is the setting's value as written in TOML.
pub fn rustfmt_entry(option: &str, value: &str, name: &str) -> (line: String)
    requires
        value@ != seq!['"'],
    ensures
        line@ == setting_line(option@, value@, name@),
{
    let n = value.unicode_len();
    let mut line = String::from_str(option);
    push_char(&mut line, ',');
    if n >= 2 && value.get_char(0) == '"' && value.get_char(n - 1) == '"' {
        line.append(value.substring_char(1, n - 1));
    } else {
        line.append(value);
    }
    push_char(&mut line, ',');
    line.append(name);
    line
}

/// Names what the `toml` crate reads from a text as a table: each key of the
/// table with its value written back as TOML, in the table's order; `None` where
/// the text is not a TOML table.
pub uninterp spec fn toml_table_rows(text: Seq<char>) -> Option<Seq<(Seq<char>, Seq<char>)>>;

/// Pairs of texts, by their views.
pub open spec fn pair_views(rows: Seq<(String, String)>) -> Seq<(Seq<char>, Seq<char>)> {
    rows.map_values(|p: (String, String)| (p.0@, p.1@))
}

/// `text.parse::<toml::Table>()`, then each entry as its key and `Value::to_string`
/// of its value. The result is named by `toml_table_rows`. A value is written with
/// its delimiters (a string between its quotes), so none is a lone `"`.
#[verifier::external_body]
fn toml_rows(text: &str) -> (r: Option<Vec<(String, String)>>)
    ensures
        match r {
            Some(v) => toml_table_rows(text@) == Some(pair_views(v@)) && forall|i: int|
                0 <= i < v@.len() ==> (#[trigger] v@[i]).1@ != seq!['"'],
            None => toml_table_rows(text@) is None,
        },
{
    match text.parse::<toml::Table>() {
        Ok(table) => {
            let mut rows = Vec::new();
            for (key, value) in &table {
                rows.push((key.clone(), value.to_string()));
            }
            Some(rows)
        },
        Err(_) => None,
    }
}

/// The lines that the collector writes for the settings of a crate (see
/// `setting_line`).
pub open spec fn setting_lines(rows: Seq<(Seq<char>, Seq<char>)>, name: Seq<char>) -> Seq<Seq<char>> {
    rows.map_values(|p: (Seq<char>, Seq<char>)| setting_line(p.0, p.1, name))
}

/// The lines of the settings of a crate, one for each option and its value as
/// written in TOML (see `setting_lines`).
pub fn rustfmt_lines(rows: &Vec<(String, String)>, name: &str) -> (lines: Vec<String>)
    requires
        forall|i: int| 0 <= i < rows@.len() ==> (#[trigger] rows@[i]).1@ != seq!['"'],
    ensures
        string_views(lines@) == setting_lines(pair_views(rows@), name@),
{
    let mut lines: Vec<String> = Vec::new();
    for i in 0..rows.len()
        invariant
            forall|j: int| 0 <= j < rows@.len() ==> (#[trigger] rows@[j]).1@ != seq!['"'],
            string_views(lines@) =~= setting_lines(pair_views(rows@), name@).take(i as int),
    {
        let ghost before = lines@;
        let line = rustfmt_entry(rows[i].0.as_str(), rows[i].1.as_str(), name);
        lines.push(line);
        proof {
            let all = setting_lines(pair_views(rows@), name@);
            assert(all[i as int] == setting_line(rows@[i as int].0@, rows@[i as int].1@, name@));
            assert(all.take(i + 1) =~= all.take(i as int).push(all[i as int]));
            assert(string_views(lines@) =~= string_views(before).push(all[i as int]));
        }
    }
    assert(setting_lines(pair_views(rows@), name@).take(rows@.len() as int) =~= setting_lines(
        pair_views(rows@),
        name@,
    ));
    lines
}

/// The lines of the settings in the text of a crate's `rustfmt.toml` (see
/// `setting_lines`); `None` where the text is not a TOML table.
pub fn rustfmt_entries(content: &str, name: &str) -> (lines: Option<Vec<String>>)
    ensures
        match (lines, toml_table_rows(content@)) {
            (Some(l), Some(rows)) => string_views(l@) == setting_lines(rows, name@),
            (None, None) => true,
            _ => false,
        },
{
    match toml_rows(content) {
        Some(rows) => Some(rustfmt_lines(&rows, name)),
        None => None,
    }
}

/// The text of the file of collected settings: each line followed by a newline.
pub open spec fn lines_text(lines: Seq<Seq<char>>) -> Seq<char>
    decreases lines.len(),
{
    if lines.len() == 0 {
        Seq::empty()
    } else {
        lines_text(lines.drop_last()) + lines.last() + seq!['\n']
    }
}

/// The text of the file of collected settings (see `lines_text`).
pub fn rustfmt_file_text(lines: &Vec<String>) -> (text: String)
    ensures
        text@ == lines_text(string_views(lines@)),
{
    let mut text = String::new();
    for i in 0..lines.len()
        invariant
            text@ == lines_text(string_views(lines@).take(i as int)),
    {
        proof {
            let v = string_views(lines@);
            assert(v.take(i + 1).drop_last() =~= v.take(i as int));
            assert(v.take(i + 1).last() == lines@[i as int]@);
        }
        text.append(lines[i].as_str());
        push_char(&mut text, '\n');
    }
    assert(string_views(lines@).take(lines@.len() as int) =~= string_views(lines@));
    text
}

/// A text without the separator is a single piece.
pub proof fn lemma_pieces_single(s: Seq<char>, sep: char)
    requires
        !s.contains(sep),
    ensures
        pieces_of(s, sep) == seq![s],
    decreases s.len(),
{
    if s.len() > 0 {
        assert(!s.drop_last().contains(sep)) by {
            if s.drop_last().contains(sep) {
                let i = choose|i: int| 0 <= i < s.drop_last().len() && s.drop_last()[i] == sep;
                assert(s[i] == sep);
            }
        }
        lemma_pieces_single(s.drop_last(), sep);
        assert(s.last() != sep) by {
            assert(s[s.len() - 1] == s.last());
        }
        assert(s.drop_last().push(s.last()) =~= s);
        let p = pieces_of(s.drop_last(), sep);
        assert(p.update(p.len() - 1, p.last().push(s.last())) =~= seq![s]);
    } else {
        assert(s =~= Seq::<char>::empty());
    }
}

/// The pieces of a text with a separator in it are the pieces before and the
/// pieces after.
pub proof fn lemma_pieces_join(a: Seq<char>, sep: char, b: Seq<char>)
    ensures
        pieces_of(a + seq![sep] + b, sep) == pieces_of(a, sep) + pieces_of(b, sep),
    decreases b.len(),
{
    lemma_pieces_of_len(a, sep);
    if b.len() == 0 {
        assert(a + seq![sep] + b =~= (a + seq![sep]));
        assert((a + seq![sep]).drop_last() =~= a);
        assert(pieces_of(a, sep) + pieces_of(b, sep) =~= pieces_of(a, sep).push(Seq::empty()));
    } else {
        let whole = a + seq![sep] + b;
        lemma_pieces_join(a, sep, b.drop_last());
        lemma_pieces_of_len(b.drop_last(), sep);
        assert(whole.drop_last() =~= a + seq![sep] + b.drop_last());
        assert(whole.last() == b.last());
        let p = pieces_of(a, sep);
        let q = pieces_of(b.drop_last(), sep);
        if b.last() == sep {
            assert((p + q).push(Seq::empty()) =~= p + q.push(Seq::empty()));
        } else {
            assert((p + q).update((p + q).len() - 1, (p + q).last().push(b.last())) =~= p + q.update(
                q.len() - 1,
                q.last().push(b.last()),
            ));
        }
    }
}

/// A line that the collector writes is read back as the setting it was written
/// for, where the option, the unquoted value and the crate name hold no comma.
pub proof fn lemma_setting_line_reads_back(option: Seq<char>, value: Seq<char>, name: Seq<char>)
    requires
        !option.contains(','),
        !unquoted(value).contains(','),
        !name.contains(','),
    ensures
        setting_of(setting_line(option, value, name)) == Some((option, unquoted(value), name)),
{
    let v = unquoted(value);
    lemma_pieces_single(option, ',');
    lemma_pieces_single(v, ',');
    lemma_pieces_single(name, ',');
    lemma_pieces_join(v, ',', name);
    lemma_pieces_join(option, ',', v + seq![','] + name);
    assert(option + seq![','] + v + seq![','] + name =~= option + seq![','] + (v + seq![','] + name));
    assert(pieces_of(setting_line(option, value, name), ',') =~= seq![option, v, name]);
}


/// Lines without newlines, each followed by a newline, split at the newlines back
/// into the lines and an empty last piece.
pub proof fn lemma_lines_text_pieces(lines: Seq<Seq<char>>)
    requires
        forall|i: int| 0 <= i < lines.len() ==> !(#[trigger] lines[i]).contains('\n'),
    ensures
        pieces_of(lines_text(lines), '\n') == lines.push(Seq::empty()),
    decreases lines.len(),
{
    if lines.len() > 0 {
        let rest = lines.drop_last();
        let x = lines.last();
        assert(!x.contains('\n')) by {
            assert(lines[lines.len() - 1] == x);
        }
        lemma_lines_text_pieces(rest);
        let t = lines_text(rest);
        let whole = lines_text(lines);
        assert(whole == t + x + seq!['\n']);
        assert(whole.drop_last() =~= t + x);
        lemma_pieces_single(x, '\n');
        if rest.len() == 0 {
            assert(t =~= Seq::<char>::empty());
            assert(t + x =~= x);
        } else {
            let u = lines_text(rest.drop_last()) + rest.last();
            assert(t =~= u + seq!['\n']);
            assert(t.drop_last() =~= u);
            lemma_pieces_join(u, '\n', x);
            assert(t + x =~= u + seq!['\n'] + x);
            assert(t.last() == '\n');
            assert(pieces_of(t, '\n') == pieces_of(u, '\n').push(Seq::empty()));
            assert(pieces_of(u, '\n') =~= pieces_of(t, '\n').drop_last());
            assert(rest.push(Seq::empty()).drop_last() =~= rest);
            assert(pieces_of(u, '\n') =~= rest);
        }
        assert(pieces_of(t + x, '\n') =~= lines);
    } else {
        assert(lines_text(lines) =~= Seq::<char>::empty());
    }
}

/// The settings that a file of collected lines holds are read back: each written
/// setting, in order, with its value unquoted, where no option, unquoted value or
/// crate name holds a comma or a newline.
pub proof fn lemma_rustfmt_file_reads_back(settings: Seq<(Seq<char>, Seq<char>, Seq<char>)>)
    requires
        forall|i: int|
            0 <= i < settings.len() ==> {
                let e = #[trigger] settings[i];
                &&& !e.0.contains(',') && !e.0.contains('\n')
                &&& !unquoted(e.1).contains(',') && !unquoted(e.1).contains('\n')
                &&& !e.2.contains(',') && !e.2.contains('\n')
            },
    ensures
        settings_in(
            pieces_of(
                lines_text(settings.map_values(|e: (Seq<char>, Seq<char>, Seq<char>)| setting_line(e.0, e.1, e.2))),
                '\n',
            ),
        ) == settings.map_values(|e: (Seq<char>, Seq<char>, Seq<char>)| (e.0, unquoted(e.1), e.2)),
    decreases settings.len(),
{
    let lines = settings.map_values(|e: (Seq<char>, Seq<char>, Seq<char>)| setting_line(e.0, e.1, e.2));
    assert forall|i: int| 0 <= i < lines.len() implies !(#[trigger] lines[i]).contains('\n') by {
        let e = settings[i];
        if lines[i].contains('\n') {
            let k = choose|k: int| 0 <= k < lines[i].len() && lines[i][k] == '\n';
            let a = e.0;
            let b = unquoted(e.1);
            if k < a.len() {
                assert(a[k] == '\n');
            } else if k == a.len() {
            } else if k < a.len() + 1 + b.len() {
                assert(b[k - a.len() - 1] == '\n');
            } else if k == a.len() + 1 + b.len() {
            } else {
                assert(e.2[k - a.len() - 2 - b.len()] == '\n');
            }
        }
    }
    lemma_lines_text_pieces(lines);
    lemma_settings_of_lines(settings);
    let single: Seq<char> = Seq::empty();
    lemma_pieces_single(single, ',');
    assert(lines.push(single).drop_last() =~= lines);
}

proof fn lemma_settings_of_lines(settings: Seq<(Seq<char>, Seq<char>, Seq<char>)>)
    requires
        forall|i: int|
            0 <= i < settings.len() ==> {
                let e = #[trigger] settings[i];
                &&& !e.0.contains(',') && !e.0.contains('\n')
                &&& !unquoted(e.1).contains(',') && !unquoted(e.1).contains('\n')
                &&& !e.2.contains(',') && !e.2.contains('\n')
            },
    ensures
        settings_in(settings.map_values(|e: (Seq<char>, Seq<char>, Seq<char>)| setting_line(e.0, e.1, e.2)))
            == settings.map_values(|e: (Seq<char>, Seq<char>, Seq<char>)| (e.0, unquoted(e.1), e.2)),
    decreases settings.len(),
{
    if settings.len() > 0 {
        let rest = settings.drop_last();
        let e = settings.last();
        assert(settings[settings.len() - 1] == e);
        assert forall|i: int| 0 <= i < rest.len() implies {
            let r = #[trigger] rest[i];
            &&& !r.0.contains(',') && !r.0.contains('\n')
            &&& !unquoted(r.1).contains(',') && !unquoted(r.1).contains('\n')
            &&& !r.2.contains(',') && !r.2.contains('\n')
        } by {
            assert(rest[i] == settings[i]);
        }
        lemma_settings_of_lines(rest);
        lemma_setting_line_reads_back(e.0, e.1, e.2);
        let lines = settings.map_values(|e: (Seq<char>, Seq<char>, Seq<char>)| setting_line(e.0, e.1, e.2));
        assert(lines.drop_last() =~= rest.map_values(|e: (Seq<char>, Seq<char>, Seq<char>)| setting_line(e.0, e.1, e.2)));
        assert(settings.map_values(|e: (Seq<char>, Seq<char>, Seq<char>)| (e.0, unquoted(e.1), e.2)) =~= rest.map_values(
            |e: (Seq<char>, Seq<char>, Seq<char>)| (e.0, unquoted(e.1), e.2),
        ).push((e.0, unquoted(e.1), e.2)));
    } else {
        assert(settings.map_values(|e: (Seq<char>, Seq<char>, Seq<char>)| setting_line(e.0, e.1, e.2)) =~= Seq::<
            Seq<char>,
        >::empty());
    }
}


/// Pieces joined back together with the separator between each two.
pub open spec fn joined_with(pieces: Seq<Seq<char>>, sep: char) -> Seq<char>
    decreases pieces.len(),
{
    if pieces.len() == 0 {
        Seq::empty()
    } else if pieces.len() == 1 {
        pieces[0]
    } else {
        joined_with(pieces.drop_last(), sep) + seq![sep] + pieces.last()
    }
}

/// Splitting a text and joining the pieces with the separator gives the text back.
pub proof fn lemma_pieces_join_back(s: Seq<char>, sep: char)
    ensures
        joined_with(pieces_of(s, sep), sep) == s,
    decreases s.len(),
{
    if s.len() == 0 {
        assert(s =~= Seq::<char>::empty());
    } else {
        let init = s.drop_last();
        let c = s.last();
        lemma_pieces_join_back(init, sep);
        lemma_pieces_of_len(init, sep);
        let p = pieces_of(init, sep);
        assert(init.push(c) =~= s);
        if c == sep {
            let q = p.push(Seq::<char>::empty());
            assert(q.drop_last() =~= p);
            assert(joined_with(p, sep) + seq![sep] + Seq::<char>::empty() =~= s);
        } else {
            let q = p.update(p.len() - 1, p.last().push(c));
            if p.len() == 1 {
                assert(q =~= seq![p[0].push(c)]);
                assert(p[0] == joined_with(p, sep));
            } else {
                assert(q.drop_last() =~= p.drop_last());
                assert(q.last() == p.last().push(c));
                assert(joined_with(p.drop_last(), sep) + seq![sep] + p.last().push(c) =~= (joined_with(
                    p.drop_last(),
                    sep,
                ) + seq![sep] + p.last()).push(c));
            }
        }
    }
}


/// The sum of `f` over the keys.
pub open spec fn sum_over(keys: Seq<Seq<char>>, f: spec_fn(Seq<char>) -> nat) -> nat
    decreases keys.len(),
{
    if keys.len() == 0 {
        0
    } else {
        sum_over(keys.drop_last(), f) + f(keys.last())
    }
}

/// Sums of functions that agree on the keys are equal.
proof fn lemma_sum_over_same(keys: Seq<Seq<char>>, f: spec_fn(Seq<char>) -> nat, g: spec_fn(Seq<char>) -> nat)
    requires
        forall|i: int| 0 <= i < keys.len() ==> f(#[trigger] keys[i]) == g(keys[i]),
    ensures
        sum_over(keys, f) == sum_over(keys, g),
    decreases keys.len(),
{
    if keys.len() > 0 {
        let init = keys.drop_last();
        assert forall|i: int| 0 <= i < init.len() implies f(#[trigger] init[i]) == g(init[i]) by {
            assert(init[i] == keys[i]);
        }
        lemma_sum_over_same(init, f, g);
        assert(f(keys[keys.len() - 1]) == g(keys[keys.len() - 1]));
    }
}

/// The sum drops by the value of a key taken out.
proof fn lemma_sum_over_remove(keys: Seq<Seq<char>>, f: spec_fn(Seq<char>) -> nat, p: int)
    requires
        0 <= p < keys.len(),
    ensures
        sum_over(keys, f) == sum_over(keys.remove(p), f) + f(keys[p]),
    decreases keys.len(),
{
    if p < keys.len() - 1 {
        let init = keys.drop_last();
        lemma_sum_over_remove(init, f, p);
        assert(keys.remove(p).drop_last() =~= init.remove(p));
        assert(keys.remove(p).last() == keys.last());
        assert(init[p] == keys[p]);
    } else {
        assert(keys.remove(p) =~= keys.drop_last());
    }
}

/// Occurrences in a list with one more text: one more for that text.
pub(crate) proof fn lemma_occurrences_push(t: Seq<Seq<char>>, x: Seq<char>, k: Seq<char>)
    ensures
        occurrences(t.push(x), k) == occurrences(t, k) + if k == x { 1nat } else { 0nat },
{
    let tx = t.push(x);
    let in_tx = at_text(tx, k);
    let in_t = at_text(t, k);

    assert forall|i: int| 0 <= i < t.len() implies #[trigger] in_tx(i) == in_t(i) by {
        assert(tx[i] == t[i]);
    }
    crate::pages::lemma_indices_where_same(t.len(), in_tx, in_t);
    assert(tx[t.len() as int] == x);
    assert(in_tx(t.len() as int) == (k == x));
}

/// A text that a list does not hold occurs in it no times.
proof fn lemma_occurrences_absent(t: Seq<Seq<char>>, k: Seq<char>)
    requires
        !t.contains(k),
    ensures
        occurrences(t, k) == 0,
    decreases t.len(),
{
    if t.len() > 0 {
        let init = t.drop_last();
        assert(!init.contains(k)) by {
            if init.contains(k) {
                let i = choose|i: int| 0 <= i < init.len() && init[i] == k;
                assert(t[i] == k);
            }
        }
        lemma_occurrences_absent(init, k);
        assert(t[t.len() - 1] != k);
        assert(init.push(t.last()) =~= t);
        lemma_occurrences_push(init, t.last(), k);
    }
}

/// The counts of the distinct texts of a list add up to its length: for keys that
/// are each text of the list once, the sum of their occurrences is the length.
pub proof fn lemma_occurrences_add_up(t: Seq<Seq<char>>, keys: Seq<Seq<char>>)
    requires
        keys.no_duplicates(),
        forall|k: Seq<char>| keys.contains(k) <==> t.contains(k),
    ensures
        sum_over(keys, |k: Seq<char>| occurrences(t, k)) == t.len(),
    decreases t.len(),
{
    let f = |k: Seq<char>| occurrences(t, k);
    if t.len() == 0 {
        if keys.len() > 0 {
            assert(keys.contains(keys[0]));
        }
    } else {
        let init = t.drop_last();
        let x = t.last();
        assert(init.push(x) =~= t);
        let g = |k: Seq<char>| occurrences(init, k);
        assert(keys.contains(x)) by {
            assert(t[t.len() - 1] == x);
        }
        let p = choose|p: int| 0 <= p < keys.len() && keys[p] == x;
        let rest = keys.remove(p);
        assert forall|i: int| 0 <= i < rest.len() implies #[trigger] rest[i] != x by {
            let j = if i < p { i } else { i + 1 };
            assert(rest[i] == keys[j]);
        }
        if init.contains(x) {
            assert forall|k: Seq<char>| keys.contains(k) <==> init.contains(k) by {
                if t.contains(k) && k != x {
                    let i = choose|i: int| 0 <= i < t.len() && t[i] == k;
                    assert(init[i] == k);
                }
                if init.contains(k) {
                    let i = choose|i: int| 0 <= i < init.len() && init[i] == k;
                    assert(t[i] == k);
                }
            }
            lemma_occurrences_add_up(init, keys);
            lemma_sum_over_remove(keys, f, p);
            lemma_sum_over_remove(keys, g, p);
            assert forall|i: int| 0 <= i < rest.len() implies f(#[trigger] rest[i]) == g(rest[i]) by {
                lemma_occurrences_push(init, x, rest[i]);
            }
            lemma_sum_over_same(rest, f, g);
            lemma_occurrences_push(init, x, x);
        } else {
            assert(rest.no_duplicates()) by {
                assert forall|i: int, j: int| 0 <= i < rest.len() && 0 <= j < rest.len() && i != j implies rest[i] != rest[j] by {
                    let a = if i < p { i } else { i + 1 };
                    let b = if j < p { j } else { j + 1 };
                    assert(rest[i] == keys[a]);
                    assert(rest[j] == keys[b]);
                }
            }
            assert forall|k: Seq<char>| rest.contains(k) <==> init.contains(k) by {
                if rest.contains(k) {
                    let i = choose|i: int| 0 <= i < rest.len() && rest[i] == k;
                    let j = if i < p { i } else { i + 1 };
                    assert(rest[i] == keys[j]);
                    assert(keys.contains(k));
                    let m = choose|m: int| 0 <= m < t.len() && t[m] == k;
                    assert(m != t.len() - 1);
                    assert(init[m] == k);
                }
                if init.contains(k) {
                    let m = choose|m: int| 0 <= m < init.len() && init[m] == k;
                    assert(t[m] == k);
                    assert(keys.contains(k));
                    let j = choose|j: int| 0 <= j < keys.len() && keys[j] == k;
                    assert(j != p);
                    let i = if j < p { j } else { j - 1 };
                    assert(rest[i] == k);
                }
            }
            lemma_occurrences_add_up(init, rest);
            lemma_sum_over_remove(keys, f, p);
            assert forall|i: int| 0 <= i < rest.len() implies f(#[trigger] rest[i]) == g(rest[i]) by {
                lemma_occurrences_push(init, x, rest[i]);
            }
            lemma_sum_over_same(rest, f, g);
            lemma_occurrences_absent(init, x);
            lemma_occurrences_push(init, x, x);
        }
    }
}

} // verus!
