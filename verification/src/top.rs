//! The list of the crates that use the most bytes.

use vstd::prelude::*;

use thousands::Separable;

use crate::crates::Crate;
use crate::order::{apply_order, is_index_permutation, key_of, stable_order};
use crate::text::{decimal_text, digit_char};

verus! {

/// The three decimal digits of `r` (below 1000), with leading zeros.
pub open spec fn three_digits(r: nat) -> Seq<char> {
    seq![digit_char(r / 100), digit_char((r / 10) % 10), digit_char(r % 10)]
}

/// `n` in decimal with a comma between the groups of three digits, counted from the
/// right.
pub open spec fn commas_text(n: nat) -> Seq<char>
    decreases n,
{
    if n < 1000 {
        decimal_text(n)
    } else {
        commas_text(n / 1000).push(',') + three_digits(n % 1000)
    }
}

/// `Separable::separate_with_commas` of the thousands crate on a `u64`: its decimal
/// digits with a comma every three digits from the right.
#[verifier::external_body]
fn separate_with_commas(n: u64) -> (s: String)
    ensures
        s@ == commas_text(n as nat),
{
    n.separate_with_commas()
}

/// `sorted` holds the crates, in the order `order` of their positions: by size,
/// largest first; crates of the same size in the reverse of their order.
pub open spec fn largest_first_order(crates: Seq<Crate>, sorted: Seq<Crate>, order: Seq<usize>) -> bool {
    &&& is_index_permutation(order, crates.len())
    &&& sorted.len() == crates.len()
    &&& forall|k: int| 0 <= k < sorted.len() ==> #[trigger] sorted[k] == crates[order[k] as int]
    &&& forall|i: int, j: int|
        0 <= i < j < sorted.len() ==> (#[trigger] sorted[i]).crate_details.size >= (
        #[trigger] sorted[j]).crate_details.size
    &&& forall|i: int, j: int|
        0 <= i < j < sorted.len() && (#[trigger] sorted[i]).crate_details.size == (
        #[trigger] sorted[j]).crate_details.size ==> order[i] > order[j]
}

/// The crates by size, largest first (see `largest_first_order`).
pub fn largest_first(crates: Vec<Crate>) -> (sorted: Vec<Crate>)
    ensures
        exists|order: Seq<usize>| #[trigger] largest_first_order(crates@, sorted@, order),
{
    let mut keys: Vec<(u64, String)> = Vec::new();
    for i in 0..crates.len()
        invariant
            keys@.len() == i,
            forall|k: int|
                0 <= k < i ==> key_of(#[trigger] keys@[k]) == (
                crates@[k].crate_details.size as int,
                Seq::<char>::empty(),
            ),
    {
        keys.push((crates[i].crate_details.size, String::new()));
    }
    let ascending = stable_order(&keys, false);
    let ghost initial = crates@;
    let ghost asc = ascending@;
    let in_order = apply_order(crates, &ascending);
    let n = in_order.len();
    let mut in_order = in_order;
    let mut sorted: Vec<Crate> = Vec::new();
    while in_order.len() > 0
        invariant
            n == initial.len(),
            asc.len() == n,
            in_order@.len() + sorted@.len() == n,
            forall|j: int| 0 <= j < in_order@.len() ==> #[trigger] in_order@[j] == initial[asc[j] as int],
            forall|p: int| 0 <= p < sorted@.len() ==> #[trigger] sorted@[p] == initial[asc[n - 1 - p] as int],
        decreases in_order@.len(),
    {
        match in_order.pop() {
            Some(c) => sorted.push(c),
            None => {},
        }
    }
    let ghost order = Seq::new(n as nat, |k: int| asc[n - 1 - k]);
    proof {
        assert forall|k: int| 0 <= k < sorted@.len() implies #[trigger] sorted@[k] == initial[order[k] as int] by {}
        assert(order.no_duplicates()) by {
            assert forall|i: int, j: int| 0 <= i < j < order.len() implies order[i] != order[j] by {
                assert(asc[n - 1 - i] != asc[n - 1 - j]);
            }
        }
        assert forall|i: int, j: int|
            0 <= i < j < sorted@.len() implies (#[trigger] sorted@[i]).crate_details.size >= (
            #[trigger] sorted@[j]).crate_details.size by {
            assert(crate::order::may_precede(
                key_of(keys@[asc[n - 1 - j] as int]),
                key_of(keys@[asc[n - 1 - i] as int]),
                false,
            ));
        }
        assert forall|i: int, j: int|
            0 <= i < j < sorted@.len() && (#[trigger] sorted@[i]).crate_details.size == (
            #[trigger] sorted@[j]).crate_details.size implies order[i] > order[j] by {
            assert(key_of(keys@[asc[n - 1 - j] as int]) == key_of(keys@[asc[n - 1 - i] as int]));
        }
        assert(largest_first_order(initial, sorted@, order));
    }
    sorted
}

/// The field that the list shows for each crate: its size with commas between the
/// groups of three digits.
pub fn size_fields(crates: &Vec<Crate>) -> (fields: Vec<String>)
    ensures
        fields@.len() == crates@.len(),
        forall|k: int|
            0 <= k < crates@.len() ==> (#[trigger] fields@[k])@ == commas_text(
                crates@[k].crate_details.size as nat,
            ),
{
    let mut fields: Vec<String> = Vec::new();
    for i in 0..crates.len()
        invariant
            fields@.len() == i,
            forall|k: int|
                0 <= k < i ==> (#[trigger] fields@[k])@ == commas_text(
                    crates@[k].crate_details.size as nat,
                ),
    {
        fields.push(separate_with_commas(crates[i].crate_details.size));
    }
    fields
}


/// A filter keeps a sequence whole when every item passes it.
proof fn lemma_filter_keeps_all(s: Seq<char>, pred: spec_fn(char) -> bool)
    requires
        forall|i: int| 0 <= i < s.len() ==> pred(#[trigger] s[i]),
    ensures
        s.filter(pred) == s,
    decreases s.len(),
{
    if s.len() == 0 {
        assert(s.filter(pred) =~= s) by {
            reveal(Seq::filter);
        }
    } else {
        let init = s.drop_last();
        assert forall|i: int| 0 <= i < init.len() implies pred(#[trigger] init[i]) by {
            assert(init[i] == s[i]);
        }
        lemma_filter_keeps_all(init, pred);
        assert(pred(s[s.len() - 1]));
        crate::crates::lemma_filter_push(init, s.last(), pred);
        assert(init.push(s.last()) =~= s);
    }
}

/// No decimal digit is a comma.
proof fn lemma_decimal_has_no_comma(n: nat)
    ensures
        forall|i: int| 0 <= i < decimal_text(n).len() ==> #[trigger] decimal_text(n)[i] != ',',
    decreases n,
{
    if n >= 10 {
        lemma_decimal_has_no_comma(n / 10);
        let init = decimal_text(n / 10);
        assert forall|i: int| 0 <= i < decimal_text(n).len() implies #[trigger] decimal_text(n)[i] != ',' by {
            if i < init.len() {
                assert(decimal_text(n)[i] == init[i]);
            } else {
                assert(decimal_text(n)[i] == digit_char(n % 10));
            }
        }
    } else {
        assert(decimal_text(n) == seq![digit_char(n)]);
    }
}

/// Appending a digit to a number appends it to its decimal text.
proof fn lemma_decimal_append(a: nat, d: nat)
    requires
        a >= 1,
        d < 10,
    ensures
        decimal_text(a * 10 + d) == decimal_text(a).push(digit_char(d)),
{
    assert((a * 10 + d) / 10 == a && (a * 10 + d) % 10 == d) by (nonlinear_arith)
        requires
            d < 10,
    ;
}

/// The decimal text of `q` thousands and `r` is that of `q` followed by the three
/// digits of `r`.
proof fn lemma_decimal_thousands(q: nat, r: nat)
    requires
        q >= 1,
        r < 1000,
    ensures
        decimal_text(q * 1000 + r) == decimal_text(q) + three_digits(r),
{
    let r1: nat = r / 100;
    let r2: nat = (r / 10) % 10;
    let r3: nat = r % 10;
    assert(r == r1 * 100 + r2 * 10 + r3 && r1 < 10 && r2 < 10 && r3 < 10) by (nonlinear_arith)
        requires
            r < 1000,
            r1 == r / 100,
            r2 == (r / 10) % 10,
            r3 == r % 10,
    ;
    let a1: nat = q * 10 + r1;
    let a2: nat = a1 * 10 + r2;
    assert(q * 1000 + r == a2 * 10 + r3) by (nonlinear_arith)
        requires
            r == r1 * 100 + r2 * 10 + r3,
            a1 == q * 10 + r1,
            a2 == a1 * 10 + r2,
    ;
    assert(a1 >= 1 && a2 >= 1) by (nonlinear_arith)
        requires
            q >= 1,
            a1 == q * 10 + r1,
            a2 == a1 * 10 + r2,
    ;
    lemma_decimal_append(q, r1);
    lemma_decimal_append(a1, r2);
    lemma_decimal_append(a2, r3);
    assert(decimal_text(q).push(digit_char(r1)).push(digit_char(r2)).push(digit_char(r3)) =~= decimal_text(q)
        + three_digits(r));
}

/// The commas only separate the digits: without them, the text is the number's
/// decimal digits.
pub proof fn lemma_commas_keep_digits(n: nat)
    ensures
        commas_text(n).filter(|c: char| c != ',') == decimal_text(n),
    decreases n,
{
    let no_comma = |c: char| c != ',';
    if n < 1000 {
        lemma_decimal_has_no_comma(n);
        lemma_filter_keeps_all(decimal_text(n), no_comma);
    } else {
        let q = n / 1000;
        let r = n % 1000;
        lemma_commas_keep_digits(q);
        let head = commas_text(q).push(',');
        let tail = three_digits(r);
        Seq::filter_distributes_over_add(head, tail, no_comma);
        crate::crates::lemma_filter_push(commas_text(q), ',', no_comma);
        assert forall|i: int| 0 <= i < tail.len() implies no_comma(#[trigger] tail[i]) by {
            assert(tail[i] == digit_char(r / 100) || tail[i] == digit_char((r / 10) % 10) || tail[i]
                == digit_char(r % 10));
        }
        lemma_filter_keeps_all(tail, no_comma);
        assert(n == q * 1000 + r && q >= 1 && r < 1000) by (nonlinear_arith)
            requires
                n >= 1000,
                q == n / 1000,
                r == n % 1000,
        ;
        lemma_decimal_thousands(q, r);
    }
}

} // verus!
