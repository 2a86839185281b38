//! Stable ordering of records by a key made of a number and a text.

use vstd::prelude::*;

use crate::text::{
    lemma_text_less_irreflexive, lemma_text_less_total, lemma_text_less_transitive,
    text_equal, text_less, text_precedes,
};

verus! {

/// The mathematical value of a sort key: a number, then a text for equal numbers.
pub open spec fn key_of(k: (u64, String)) -> (int, Seq<char>) {
    (k.0 as int, k.1@)
}

/// Key `a` is strictly smaller than key `b`: a smaller number, or an equal number
/// and a text that comes first.
pub open spec fn key_less(a: (int, Seq<char>), b: (int, Seq<char>)) -> bool {
    a.0 < b.0 || (a.0 == b.0 && text_less(a.1, b.1))
}

/// A record with key `a` may stand before one with key `b` in the given direction:
/// in a descending order `b` is not greater, in an ascending order not smaller.
pub open spec fn may_precede(a: (int, Seq<char>), b: (int, Seq<char>), descending: bool) -> bool {
    if descending {
        !key_less(a, b)
    } else {
        !key_less(b, a)
    }
}

/// `order` holds each index below `n` exactly once.
pub open spec fn is_index_permutation(order: Seq<usize>, n: nat) -> bool {
    &&& order.len() == n
    &&& forall|i: int| 0 <= i < order.len() ==> #[trigger] order[i] < n
    &&& order.no_duplicates()
}

/// Following `order`, the keys go in the given direction.
pub open spec fn keys_in_order(keys: Seq<(u64, String)>, order: Seq<usize>, descending: bool) -> bool {
    forall|i: int, j: int|
        0 <= i < j < order.len() ==> may_precede(
            key_of(#[trigger] keys[order[i] as int]),
            key_of(#[trigger] keys[order[j] as int]),
            descending,
        )
}

/// Following `order`, records with equal keys keep the order they had.
pub open spec fn keeps_ties_in_place(keys: Seq<(u64, String)>, order: Seq<usize>) -> bool {
    forall|i: int, j: int|
        0 <= i < j < order.len() && key_of(#[trigger] keys[order[i] as int]) == key_of(
            #[trigger] keys[order[j] as int],
        ) ==> order[i] < order[j]
}

/// `order` sorts the records with these keys stably in the given direction.
pub open spec fn is_stable_order(keys: Seq<(u64, String)>, order: Seq<usize>, descending: bool) -> bool {
    &&& is_index_permutation(order, keys.len())
    &&& keys_in_order(keys, order, descending)
    &&& keeps_ties_in_place(keys, order)
}

proof fn lemma_key_less_facts(a: (int, Seq<char>), b: (int, Seq<char>), c: (int, Seq<char>))
    ensures
        !key_less(a, a),
        a != b ==> (key_less(a, b) || key_less(b, a)),
        !(key_less(a, b) && key_less(b, a)),
        key_less(a, b) && key_less(b, c) ==> key_less(a, c),
{
    lemma_text_less_irreflexive(a.1);
    lemma_text_less_total(a.1, b.1);
    if a.0 == b.0 && a.1 == b.1 {
        assert(a == b);
    }
    if key_less(a, b) && key_less(b, c) && a.0 == b.0 && b.0 == c.0 {
        lemma_text_less_transitive(a.1, b.1, c.1);
    }
}

/// `may_precede` is transitive, and a key that may not stand before another is
/// one that the other may stand before, strictly.
proof fn lemma_may_precede_facts(
    a: (int, Seq<char>),
    b: (int, Seq<char>),
    c: (int, Seq<char>),
    descending: bool,
)
    ensures
        may_precede(a, a, descending),
        may_precede(a, b, descending) && may_precede(b, c, descending) ==> may_precede(
            a,
            c,
            descending,
        ),
        may_precede(a, b, descending) && !may_precede(c, b, descending) ==> !may_precede(
            c,
            a,
            descending,
        ),
        !may_precede(a, b, descending) ==> may_precede(b, a, descending) && a != b,
{
    lemma_key_less_facts(a, b, c);
    lemma_key_less_facts(b, c, a);
    lemma_key_less_facts(c, a, b);
    lemma_key_less_facts(a, c, b);
    lemma_key_less_facts(c, b, a);
    lemma_key_less_facts(b, a, c);
}

fn key_precedes(a: &(u64, String), b: &(u64, String)) -> (r: bool)
    ensures
        r == key_less(key_of(*a), key_of(*b)),
{
    if a.0 < b.0 {
        true
    } else if a.0 == b.0 {
        text_precedes(a.1.as_str(), b.1.as_str())
    } else {
        false
    }
}

fn may_precede_exec(a: &(u64, String), b: &(u64, String), descending: bool) -> (r: bool)
    ensures
        r == may_precede(key_of(*a), key_of(*b), descending),
{
    if descending {
        !key_precedes(a, b)
    } else {
        !key_precedes(b, a)
    }
}

/// Whether two keys are equal.
pub fn same_key(a: &(u64, String), b: &(u64, String)) -> (r: bool)
    ensures
        r == (key_of(*a) == key_of(*b)),
{
    a.0 == b.0 && text_equal(a.1.as_str(), b.1.as_str())
}

/// The order in which the records with these keys stand once sorted stably,
/// descending or ascending: records with equal keys keep their order.
pub fn stable_order(keys: &Vec<(u64, String)>, descending: bool) -> (order: Vec<usize>)
    ensures
        is_stable_order(keys@, order@, descending),
{
    let n = keys.len();
    let mut order: Vec<usize> = Vec::new();
    for k in 0..n
        invariant
            n == keys@.len(),
            order@.len() == k,
            forall|i: int| 0 <= i < order@.len() ==> #[trigger] order@[i] < k,
            order@.no_duplicates(),
            keys_in_order(keys@, order@, descending),
            keeps_ties_in_place(keys@, order@),
    {
        let ghost x = key_of(keys@[k as int]);
        let mut lo: usize = 0;
        let mut hi: usize = order.len();
        while lo < hi
            invariant
                n == keys@.len(),
                k < n,
                x == key_of(keys@[k as int]),
                order@.len() == k,
                forall|i: int| 0 <= i < order@.len() ==> #[trigger] order@[i] < k,
                keys_in_order(keys@, order@, descending),
                0 <= lo <= hi <= order@.len(),
                forall|i: int|
                    0 <= i < lo ==> may_precede(
                        key_of(#[trigger] keys@[order@[i] as int]),
                        x,
                        descending,
                    ),
                forall|i: int|
                    hi <= i < order@.len() ==> !may_precede(
                        key_of(#[trigger] keys@[order@[i] as int]),
                        x,
                        descending,
                    ),
            decreases hi - lo,
        {
            let mid = lo + (hi - lo) / 2;
            let ghost km = key_of(keys@[order@[mid as int] as int]);
            if may_precede_exec(&keys[order[mid]], &keys[k], descending) {
                assert forall|i: int| 0 <= i < mid + 1 implies may_precede(
                    key_of(#[trigger] keys@[order@[i] as int]),
                    x,
                    descending,
                ) by {
                    if i < mid {
                        lemma_may_precede_facts(
                            key_of(keys@[order@[i] as int]),
                            km,
                            x,
                            descending,
                        );
                    }
                }
                lo = mid + 1;
            } else {
                assert forall|i: int| mid <= i < order@.len() implies !may_precede(
                    key_of(#[trigger] keys@[order@[i] as int]),
                    x,
                    descending,
                ) by {
                    if i > mid {
                        lemma_may_precede_facts(
                            km,
                            key_of(keys@[order@[i] as int]),
                            x,
                            descending,
                        );
                    }
                }
                hi = mid;
            }
        }
        let ghost old_order = order@;
        order.insert(lo, k);
        proof {
            assert(order@ =~= old_order.insert(lo as int, k));
            assert forall|i: int, j: int|
                0 <= i < j < order@.len() implies may_precede(
                key_of(#[trigger] keys@[order@[i] as int]),
                key_of(#[trigger] keys@[order@[j] as int]),
                descending,
            ) by {
                if j < lo {
                } else if j == lo {
                } else if i < lo {
                    assert(order@[j] == old_order[j - 1]);
                    lemma_may_precede_facts(
                        key_of(keys@[old_order[j - 1] as int]),
                        x,
                        x,
                        descending,
                    );
                    lemma_may_precede_facts(
                        key_of(keys@[order@[i] as int]),
                        x,
                        key_of(keys@[old_order[j - 1] as int]),
                        descending,
                    );
                } else if i == lo {
                    lemma_may_precede_facts(
                        key_of(keys@[old_order[j - 1] as int]),
                        x,
                        x,
                        descending,
                    );
                } else {
                    assert(order@[i] == old_order[i - 1]);
                    assert(order@[j] == old_order[j - 1]);
                }
            }
            assert forall|i: int, j: int|
                0 <= i < j < order@.len() && key_of(#[trigger] keys@[order@[i] as int]) == key_of(
                    #[trigger] keys@[order@[j] as int],
                ) implies order@[i] < order@[j] by {
                if j < lo {
                } else if j == lo {
                } else if i < lo {
                    assert(order@[j] == old_order[j - 1]);
                } else if i == lo {
                    assert(order@[j] == old_order[j - 1]);
                    lemma_may_precede_facts(
                        key_of(keys@[old_order[j - 1] as int]),
                        x,
                        x,
                        descending,
                    );
                } else {
                    assert(order@[i] == old_order[i - 1]);
                    assert(order@[j] == old_order[j - 1]);
                }
            }
            assert forall|i: int| 0 <= i < order@.len() implies #[trigger] order@[i] < k + 1 by {
                if i < lo {
                } else if i > lo {
                    assert(order@[i] == old_order[i - 1]);
                }
            }
            assert forall|i: int, j: int|
                0 <= i < order@.len() && 0 <= j < order@.len() && i != j implies order@[i]
                != order@[j] by {
                if i != lo && j != lo {
                    let oi = if i < lo { i } else { i - 1 };
                    let oj = if j < lo { j } else { j - 1 };
                    assert(order@[i] == old_order[oi]);
                    assert(order@[j] == old_order[oj]);
                } else if i == lo {
                    let oj = if j < lo { j } else { j - 1 };
                    assert(order@[j] == old_order[oj]);
                } else {
                    let oi = if i < lo { i } else { i - 1 };
                    assert(order@[i] == old_order[oi]);
                }
            }
        }
    }
    order
}

/// The items rearranged along `order`: item `order[j]` comes `j`-th.
pub fn apply_order<T>(items: Vec<T>, order: &Vec<usize>) -> (arranged: Vec<T>)
    requires
        is_index_permutation(order@, items@.len()),
    ensures
        arranged@.len() == order@.len(),
        forall|j: int| 0 <= j < order@.len() ==> arranged@[j] == items@[#[trigger] order@[j] as int],
{
    let n = items.len();
    let ghost initial = items@;
    let mut items = items;
    let mut slots: Vec<Option<T>> = Vec::new();
    while items.len() > 0
        invariant
            n == initial.len(),
            items@.len() + slots@.len() == n,
            items@ =~= initial.take(items@.len() as int),
            forall|p: int|
                0 <= p < slots@.len() ==> #[trigger] slots@[p] == Some(initial[n - 1 - p]),
        decreases items@.len(),
    {
        let ghost before = items@;
        let last = items.pop();
        proof {
            assert(items@ =~= initial.take(items@.len() as int));
        }
        slots.push(last);
    }
    let mut arranged: Vec<T> = Vec::new();
    for j in 0..n
        invariant
            n == initial.len(),
            slots@.len() == n,
            is_index_permutation(order@, n as nat),
            arranged@.len() == j,
            forall|q: int| 0 <= q < j ==> arranged@[q] == initial[#[trigger] order@[q] as int],
            forall|p: int|
                0 <= p < n && !order@.take(j as int).contains(p as usize) ==> #[trigger] slots@[n
                    - 1 - p] == Some(initial[p]),
    {
        let idx = order[j];
        let ghost before = slots@;
        proof {
            assert(!order@.take(j as int).contains(idx)) by {
                if order@.take(j as int).contains(idx) {
                    let q = choose|q: int| 0 <= q < j && order@.take(j as int)[q] == idx;
                    assert(order@[q] == order@[j as int]);
                }
            }
            assert(slots@[n - 1 - idx] == Some(initial[idx as int]));
        }
        let taken = slots[n - 1 - idx].take();
        match taken {
            Some(item) => {
                arranged.push(item);
            },
            None => {},
        }
        proof {
            assert forall|p: int|
                0 <= p < n && !order@.take(j + 1).contains(p as usize) implies #[trigger] slots@[n
                - 1 - p] == Some(initial[p]) by {
                assert(order@.take(j + 1) =~= order@.take(j as int).push(idx));
                assert(order@.take(j + 1)[j as int] == idx);
                assert(p != idx as int);
                assert(!order@.take(j as int).contains(p as usize));
            }
        }
    }
    arranged
}


/// A permutation of the positions below `n` holds each of them.
pub proof fn lemma_permutation_covers(order: Seq<usize>, n: nat, v: usize)
    requires
        is_index_permutation(order, n),
        v < n,
    ensures
        order.contains(v),
{
    let ints = order.map_values(|x: usize| x as int);
    assert(ints.no_duplicates()) by {
        assert forall|i: int, j: int| 0 <= i < ints.len() && 0 <= j < ints.len() && i != j implies ints[i] != ints[j] by {
            assert(order[i] != order[j]);
        }
    }
    ints.unique_seq_to_set();
    vstd::set_lib::lemma_int_range(0, n as int);
    let range = vstd::set_lib::set_int_range(0, n as int);
    assert(ints.to_set().subset_of(range)) by {
        assert forall|x: int| ints.to_set().contains(x) implies range.contains(x) by {
            let i = choose|i: int| 0 <= i < ints.len() && ints[i] == x;
            assert(order[i] < n);
        }
    }
    vstd::seq_lib::seq_to_set_is_finite(ints);
    vstd::set_lib::lemma_subset_equality(ints.to_set(), range);
    assert(range.contains(v as int));
    assert(ints.to_set().contains(v as int));
    let i = choose|i: int| 0 <= i < ints.len() && ints[i] == v as int;
    assert(order[i] == v);
}


/// Keys that may each stand before the other are equal.
proof fn lemma_may_precede_both(a: (int, Seq<char>), b: (int, Seq<char>), descending: bool)
    requires
        may_precede(a, b, descending),
        may_precede(b, a, descending),
    ensures
        a == b,
{
    lemma_key_less_facts(a, b, a);
}

/// The position at which a permutation holds a value.
proof fn lemma_position_of(order: Seq<usize>, n: nat, v: usize) -> (p: int)
    requires
        is_index_permutation(order, n),
        v < n,
    ensures
        0 <= p < order.len(),
        order[p] == v,
{
    lemma_permutation_covers(order, n, v);
    choose|p: int| 0 <= p < order.len() && order[p] == v
}

/// Two stable orders of the same keys in the same direction that agree below `k`
/// agree below `k + 1`, and so on up to their end.
proof fn lemma_stable_orders_agree(
    keys: Seq<(u64, String)>,
    first: Seq<usize>,
    second: Seq<usize>,
    descending: bool,
    k: int,
)
    requires
        is_stable_order(keys, first, descending),
        is_stable_order(keys, second, descending),
        0 <= k <= keys.len(),
        forall|m: int| 0 <= m < k ==> first[m] == second[m],
    ensures
        forall|m: int| 0 <= m < keys.len() ==> first[m] == second[m],
    decreases keys.len() - k,
{
    let n = keys.len();
    if k < n {
        let x = first[k];
        let y = second[k];
        if x != y {
            let p = lemma_position_of(first, n, y);
            let q = lemma_position_of(second, n, x);
            if p < k {
                assert(second[p] == y);
                assert(false);
            }
            if q < k {
                assert(first[q] == x);
                assert(false);
            }
            assert(p != k && q != k);
            let kx = key_of(keys[first[k] as int]);
            let ky = key_of(keys[first[p] as int]);
            assert(may_precede(kx, ky, descending));
            assert(key_of(keys[second[k] as int]) == ky);
            assert(key_of(keys[second[q] as int]) == kx);
            assert(may_precede(ky, kx, descending));
            lemma_may_precede_both(kx, ky, descending);
            assert(first[k] < first[p]);
            assert(second[k] < second[q]);
            assert(false);
        }
        lemma_stable_orders_agree(keys, first, second, descending, k + 1);
    }
}

/// A stable sort is determined: any two orders that sort the same keys stably in
/// the same direction are the same order.
pub proof fn lemma_stable_order_unique(
    keys: Seq<(u64, String)>,
    first: Seq<usize>,
    second: Seq<usize>,
    descending: bool,
)
    requires
        is_stable_order(keys, first, descending),
        is_stable_order(keys, second, descending),
    ensures
        first == second,
{
    lemma_stable_orders_agree(keys, first, second, descending, 0);
    assert(first =~= second);
}

} // verus!
