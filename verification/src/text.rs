//! Text helpers: decimal formatting, comparisons and character tests.

use vstd::prelude::*;

verus! {

/// The character that writes the decimal digit `d`.
pub open spec fn digit_char(d: nat) -> char {
    if d == 0 {
        '0'
    } else if d == 1 {
        '1'
    } else if d == 2 {
        '2'
    } else if d == 3 {
        '3'
    } else if d == 4 {
        '4'
    } else if d == 5 {
        '5'
    } else if d == 6 {
        '6'
    } else if d == 7 {
        '7'
    } else if d == 8 {
        '8'
    } else {
        '9'
    }
}

/// The decimal digits of `n`, most significant first, without leading zeros.
pub open spec fn decimal_text(n: nat) -> Seq<char>
    decreases n,
{
    if n < 10 {
        seq![digit_char(n)]
    } else {
        decimal_text(n / 10).push(digit_char(n % 10))
    }
}

/// A number of hundredths written as a decimal number: the whole part, then a dot and
/// the fraction digits only where the fraction is not zero, without trailing zeros.
pub open spec fn hundredths_text(h: nat) -> Seq<char> {
    let whole = h / 100;
    let frac = h % 100;
    if frac == 0 {
        decimal_text(whole)
    } else if frac % 10 == 0 {
        decimal_text(whole) + seq!['.', digit_char(frac / 10)]
    } else {
        decimal_text(whole) + seq!['.', digit_char(frac / 10), digit_char(frac % 10)]
    }
}

/// `num` as a share of `total` in percent, cut down to hundredths of a percent.
/// With no total at all the share is not a number (`NaN`), or infinite (`inf`)
/// when `num` is positive.
pub open spec fn percentage_text(num: nat, total: nat) -> Seq<char> {
    if total == 0 {
        if num == 0 {
            seq!['N', 'a', 'N']
        } else {
            seq!['i', 'n', 'f']
        }
    } else {
        hundredths_text(10000 * num / total)
    }
}

/// Appends a character to a string (`String::push`).
#[verifier::external_body]
pub(crate) fn push_char(s: &mut String, c: char)
    ensures
        final(s)@ == old(s)@.push(c),
{
    s.push(c);
}

fn digit_to_char(d: u128) -> (c: char)
    requires
        d < 10,
    ensures
        c == digit_char(d as nat),
{
    if d == 0 {
        '0'
    } else if d == 1 {
        '1'
    } else if d == 2 {
        '2'
    } else if d == 3 {
        '3'
    } else if d == 4 {
        '4'
    } else if d == 5 {
        '5'
    } else if d == 6 {
        '6'
    } else if d == 7 {
        '7'
    } else if d == 8 {
        '8'
    } else {
        '9'
    }
}

/// Writes `n` in decimal.
pub fn decimal_string(n: u128) -> (s: String)
    ensures
        s@ == decimal_text(n as nat),
    decreases n,
{
    if n < 10 {
        let mut s = String::new();
        push_char(&mut s, digit_to_char(n));
        s
    } else {
        let mut s = decimal_string(n / 10);
        push_char(&mut s, digit_to_char(n % 10));
        s
    }
}

/// Writes a number of hundredths as a decimal number (see `hundredths_text`).
pub fn hundredths_string(h: u128) -> (s: String)
    ensures
        s@ == hundredths_text(h as nat),
{
    let whole = h / 100;
    let frac = h % 100;
    let mut s = decimal_string(whole);
    if frac != 0 {
        push_char(&mut s, '.');
        push_char(&mut s, digit_to_char(frac / 10));
        if frac % 10 != 0 {
            push_char(&mut s, digit_to_char(frac % 10));
        }
    }
    proof {
        assert(s@ =~= hundredths_text(h as nat));
    }
    s
}

/// The share of `num` in `total` in percent, to hundredths of a percent, written
/// without trailing zeros: 5 of 20 gives "25", 1234 of 10000 gives "12.34".
/// A total of zero gives "NaN", or "inf" when `num` is positive.
pub fn percentage(num: usize, total: usize) -> (s: String)
    ensures
        s@ == percentage_text(num as nat, total as nat),
{
    if total == 0 {
        let mut s = String::new();
        if num == 0 {
            push_char(&mut s, 'N');
            push_char(&mut s, 'a');
            push_char(&mut s, 'N');
        } else {
            push_char(&mut s, 'i');
            push_char(&mut s, 'n');
            push_char(&mut s, 'f');
        }
        proof {
            assert(s@ =~= percentage_text(num as nat, total as nat));
        }
        s
    } else {
        let wide: u128 = num as u128;
        let h: u128 = (wide * 10000) / (total as u128);
        hundredths_string(h)
    }
}


/// `a` comes strictly before `b` in the order of their characters' code points,
/// a text before every longer text that it begins.
pub open spec fn text_less(a: Seq<char>, b: Seq<char>) -> bool
    decreases a.len(),
{
    if a.len() == 0 {
        b.len() > 0
    } else if b.len() == 0 {
        false
    } else if a[0] != b[0] {
        (a[0] as int) < (b[0] as int)
    } else {
        text_less(a.drop_first(), b.drop_first())
    }
}

/// No text comes before itself.
pub proof fn lemma_text_less_irreflexive(a: Seq<char>)
    ensures
        !text_less(a, a),
    decreases a.len(),
{
    if a.len() > 0 {
        lemma_text_less_irreflexive(a.drop_first());
    }
}

/// Of two different texts exactly one comes before the other.
pub proof fn lemma_text_less_total(a: Seq<char>, b: Seq<char>)
    ensures
        a != b ==> (text_less(a, b) || text_less(b, a)),
        !(text_less(a, b) && text_less(b, a)),
    decreases a.len(),
{
    if a.len() > 0 && b.len() > 0 {
        if a[0] == b[0] {
            lemma_text_less_total(a.drop_first(), b.drop_first());
            if a.drop_first() == b.drop_first() {
                assert(a =~= seq![a[0]] + a.drop_first());
                assert(b =~= seq![b[0]] + b.drop_first());
            }
        } else {
            assert((a[0] as int) != (b[0] as int));
        }
    } else if a.len() == 0 && b.len() == 0 {
        assert(a =~= b);
    }
}

/// The order of texts is transitive.
pub proof fn lemma_text_less_transitive(a: Seq<char>, b: Seq<char>, c: Seq<char>)
    requires
        text_less(a, b),
        text_less(b, c),
    ensures
        text_less(a, c),
    decreases a.len(),
{
    if a.len() > 0 && b.len() > 0 && c.len() > 0 {
        if a[0] == b[0] && b[0] == c[0] {
            lemma_text_less_transitive(a.drop_first(), b.drop_first(), c.drop_first());
        }
    }
}

/// Whether `a` comes strictly before `b` (see `text_less`).
pub fn text_precedes(a: &str, b: &str) -> (r: bool)
    ensures
        r == text_less(a@, b@),
{
    let la = a.unicode_len();
    let lb = b.unicode_len();
    let mut i: usize = 0;
    assert(a@.skip(0) =~= a@);
    assert(b@.skip(0) =~= b@);
    while i < la && i < lb
        invariant
            la == a@.len(),
            lb == b@.len(),
            i <= la,
            i <= lb,
            text_less(a@, b@) == text_less(a@.skip(i as int), b@.skip(i as int)),
        decreases la - i,
    {
        let ca = a.get_char(i);
        let cb = b.get_char(i);
        if ca != cb {
            return ca < cb;
        }
        assert(a@.skip(i as int).drop_first() =~= a@.skip(i + 1));
        assert(b@.skip(i as int).drop_first() =~= b@.skip(i + 1));
        i = i + 1;
    }
    i < lb
}

/// Whether two texts are equal.
pub fn text_equal(a: &str, b: &str) -> (r: bool)
    ensures
        r == (a@ == b@),
{
    let la = a.unicode_len();
    let lb = b.unicode_len();
    if la != lb {
        return false;
    }
    let mut i: usize = 0;
    while i < la
        invariant
            la == a@.len(),
            lb == b@.len(),
            la == lb,
            i <= la,
            a@.take(i as int) =~= b@.take(i as int),
        decreases la - i,
    {
        if a.get_char(i) != b.get_char(i) {
            return false;
        }
        assert(a@.take(i + 1) =~= a@.take(i as int).push(a@[i as int]));
        assert(b@.take(i + 1) =~= b@.take(i as int).push(b@[i as int]));
        i = i + 1;
    }
    assert(a@ =~= a@.take(la as int));
    assert(b@ =~= b@.take(lb as int));
    true
}

/// Whether `text` begins with `prefix`.
pub fn has_prefix(text: &str, prefix: &str) -> (r: bool)
    ensures
        r == prefix@.is_prefix_of(text@),
{
    let lt = text.unicode_len();
    let lp = prefix.unicode_len();
    if lp > lt {
        return false;
    }
    let mut i: usize = 0;
    while i < lp
        invariant
            lt == text@.len(),
            lp == prefix@.len(),
            lp <= lt,
            i <= lp,
            forall|j: int| 0 <= j < i ==> prefix@[j] == text@[j],
        decreases lp - i,
    {
        if text.get_char(i) != prefix.get_char(i) {
            return false;
        }
        i = i + 1;
    }
    true
}


/// The whole of a positive total is 100 percent, and nothing of it is 0 percent.
pub proof fn lemma_percentage_whole(total: nat)
    requires
        total > 0,
    ensures
        percentage_text(total, total) == seq!['1', '0', '0'],
        percentage_text(0, total) == seq!['0'],
{
    assert(10000 * total / total == 10000) by (nonlinear_arith)
        requires
            total > 0,
    ;
    assert(10000 * 0 / total == 0) by (nonlinear_arith)
        requires
            total > 0,
    ;
    reveal_with_fuel(decimal_text, 3);
    assert(decimal_text(100) == seq!['1', '0', '0']);
}

} // verus!
