//! What the digits of an amount mean as a number, and that rounding on the
//! digits is rounding of the number.

use vstd::prelude::*;
use crate::amount::{
    fraction_part, hundredths, increment, integer_part, is_amount, lemma_amount_parts,
    lemma_increment_digits, lemma_strip_zeros, normalized_amount, strip_zeros, two_places,
};
use crate::text::{all_digits, digit_char, digit_value, is_digit};

verus! {

/// The number that digits write.
pub open spec fn digits_value(d: Seq<char>) -> nat
    decreases d.len(),
{
    if d.len() == 0 {
        0
    } else {
        (digits_value(d.drop_last()) * 10 + digit_value(d.last())) as nat
    }
}

/// Ten to the power of `k`.
pub open spec fn pow10(k: nat) -> nat
    decreases k,
{
    if k == 0 {
        1
    } else {
        10 * pow10((k - 1) as nat)
    }
}

/// The number of hundredths nearest to a wire amount, a half counted up: for
/// an amount of `n` units of the last of its `k` decimals, that is `n` times
/// one hundred, divided by ten to the `k`, and rounded.
pub open spec fn nearest_hundredths(a: Seq<char>) -> nat {
    let n = digits_value(integer_part(a) + fraction_part(a));
    let scale = pow10(fraction_part(a).len());
    (n * 100 + scale / 2) / scale
}

/// The first powers of ten.
pub proof fn lemma_pow10_values()
    ensures
        pow10(0) == 1,
        pow10(1) == 10,
        pow10(2) == 100,
{
    assert(pow10(0) == 1);
    assert(pow10(1) == 10 * pow10(0));
    assert(pow10(2) == 10 * pow10(1));
}

/// A power of ten is positive.
pub proof fn lemma_pow10_positive(k: nat)
    ensures
        pow10(k) >= 1,
    decreases k,
{
    if k > 0 {
        lemma_pow10_positive((k - 1) as nat);
    }
}

/// A part of digits is digits.
pub proof fn lemma_part_of_digits(d: Seq<char>, from: int, to: int)
    requires
        all_digits(d),
        0 <= from <= to <= d.len(),
    ensures
        all_digits(d.subrange(from, to)),
{
    assert forall|i: int| 0 <= i < to - from implies is_digit(#[trigger] d.subrange(from, to)[i]) by {
        assert(d.subrange(from, to)[i] == d[from + i]);
    }
}

/// Digits behind digits are digits.
pub proof fn lemma_digits_concat(a: Seq<char>, b: Seq<char>)
    requires
        all_digits(a),
        all_digits(b),
    ensures
        all_digits(a + b),
{
    assert forall|i: int| 0 <= i < (a + b).len() implies is_digit(#[trigger] (a + b)[i]) by {
        if i < a.len() {
            assert((a + b)[i] == a[i]);
        } else {
            assert((a + b)[i] == b[i - a.len()]);
        }
    }
}

/// The number written by digits behind other digits: the first number moved
/// up by the length of the second, and the second.
pub proof fn lemma_value_concat(a: Seq<char>, b: Seq<char>)
    requires
        all_digits(b),
    ensures
        digits_value(a + b) == digits_value(a) * pow10(b.len()) + digits_value(b),
    decreases b.len(),
{
    if b.len() == 0 {
        assert(a + b =~= a);
        assert(pow10(0) == 1);
        assert(digits_value(b) == 0);
        assert(digits_value(a) * 1 == digits_value(a)) by (nonlinear_arith);
    } else {
        let before = b.drop_last();
        lemma_part_of_digits(b, 0, b.len() - 1);
        assert(before =~= b.subrange(0, b.len() - 1));
        lemma_value_concat(a, before);
        let w = a + b;
        assert(w.drop_last() =~= a + before);
        assert(w.last() == b.last());
        assert(is_digit(b.last()));
        let x = digits_value(a);
        let p = pow10(before.len());
        let y = digits_value(before);
        let c = digit_value(b.last());
        assert(pow10(b.len()) == 10 * p);
        assert(digits_value(w) == (digits_value(w.drop_last()) * 10 + c) as nat);
        assert(digits_value(b) == (y * 10 + c) as nat);
        assert(digits_value(w.drop_last()) == x * p + y);
        assert((x * p + y) * 10 + c == x * (10 * p) + (y * 10 + c)) by (nonlinear_arith);
    }
}

/// Digits write a number below ten to the power of their length.
pub proof fn lemma_value_bound(d: Seq<char>)
    requires
        all_digits(d),
    ensures
        digits_value(d) < pow10(d.len()),
    decreases d.len(),
{
    if d.len() > 0 {
        lemma_part_of_digits(d, 0, d.len() - 1);
        assert(d.drop_last() =~= d.subrange(0, d.len() - 1));
        lemma_value_bound(d.drop_last());
        assert(is_digit(d.last()));
    }
}

/// One digit writes its own value.
pub proof fn lemma_value_of_one(c: char)
    requires
        is_digit(c),
    ensures
        digits_value(seq![c]) == digit_value(c),
{
    let one = seq![c];
    assert(one.len() == 1);
    assert(one.drop_last() =~= Seq::<char>::empty());
    assert(one.last() == c);
    assert(digits_value(one.drop_last()) == 0);
    assert(digits_value(one) == (digits_value(one.drop_last()) * 10 + digit_value(one.last())) as nat);
}

/// Incrementing digits adds one to the number they write.
pub proof fn lemma_increment_value(d: Seq<char>)
    requires
        all_digits(d),
    ensures
        digits_value(increment(d)) == digits_value(d) + 1,
    decreases d.len(),
{
    if d.len() == 0 {
        lemma_value_of_one('1');
        assert(increment(d) == seq!['1']);
        assert(digits_value(d) == 0);
    } else {
        let before = d.drop_last();
        lemma_part_of_digits(d, 0, d.len() - 1);
        assert(before =~= d.subrange(0, d.len() - 1));
        assert(is_digit(d.last()));
        assert(digits_value(d) == (digits_value(before) * 10 + digit_value(d.last())) as nat);
        if d.last() == '9' {
            lemma_increment_value(before);
            let up = increment(before).push('0');
            assert(up.drop_last() =~= increment(before));
            assert(up.last() == '0');
            assert(digits_value(up) == (digits_value(up.drop_last()) * 10 + digit_value(
                up.last(),
            )) as nat);
        } else {
            let c = digit_char(digit_value(d.last()) + 1);
            let up = before.push(c);
            assert(up.drop_last() =~= before);
            assert(up.last() == c);
            assert(digit_value(c) == digit_value(d.last()) + 1);
            assert(digits_value(up) == (digits_value(up.drop_last()) * 10 + digit_value(
                up.last(),
            )) as nat);
        }
    }
}

/// Leading zeros do not change the number that digits write.
pub proof fn lemma_strip_zeros_value(d: Seq<char>, keep: int)
    requires
        all_digits(d),
    ensures
        digits_value(strip_zeros(d, keep)) == digits_value(d),
    decreases d.len(),
{
    if d.len() > keep && d.len() > 0 && d[0] == '0' {
        let rest = d.drop_first();
        lemma_part_of_digits(d, 1, d.len() as int);
        assert(rest =~= d.subrange(1, d.len() as int));
        lemma_strip_zeros_value(rest, keep);
        let zero = seq!['0'];
        assert(d =~= zero + rest);
        lemma_value_concat(zero, rest);
        lemma_value_of_one('0');
        assert(digits_value(zero) == 0);
        assert(0 * pow10(rest.len()) == 0) by (nonlinear_arith);
        assert(digits_value(d) == digits_value(rest));
    }
}

/// A number between two multiples of a divisor that follow each other,
/// divided by the divisor, is the factor of the lower one.
pub proof fn lemma_quotient(x: int, d: int, q: int)
    by (nonlinear_arith)
    requires
        d > 0,
        q * d <= x < (q + 1) * d,
    ensures
        x / d == q,
{
}

/// Rounding on the digits is rounding of the number: the digits of an amount
/// counted in hundredths write the number of hundredths nearest to the
/// amount, a half counted up.
pub proof fn law_hundredths_value(a: Seq<char>)
    requires
        is_amount(a),
    ensures
        all_digits(hundredths(a)),
        digits_value(hundredths(a)) == nearest_hundredths(a),
{
    lemma_amount_parts(a);
    let ip = integer_part(a);
    let f = fraction_part(a);
    let k = f.len();
    let n = digits_value(ip + f);
    let base = ip + two_places(f);
    lemma_value_concat(ip, f);
    if k == 0 {
        let zeros = seq!['0', '0'];
        assert(all_digits(zeros));
        assert(two_places(f) =~= zeros);
        assert(ip + f =~= ip);
        lemma_value_concat(ip, zeros);
        lemma_value_of_one('0');
        assert(zeros.drop_last() =~= seq!['0']);
        assert(zeros.last() == '0');
        assert(digits_value(zeros) == (digits_value(zeros.drop_last()) * 10 + digit_value(
            zeros.last(),
        )) as nat);
        assert(digits_value(zeros) == 0);
        lemma_pow10_values();
        lemma_digits_concat(ip, zeros);
    } else if k == 1 {
        let zero = seq!['0'];
        assert(all_digits(zero));
        assert(base =~= (ip + f) + zero);
        lemma_digits_concat(ip, f);
        lemma_digits_concat(ip + f, zero);
        lemma_value_concat(ip + f, zero);
        lemma_value_of_one('0');
        lemma_pow10_values();
        lemma_quotient(n as int * 100 + 5, 10, n as int * 10);
    } else if k == 2 {
        assert(two_places(f) =~= f);
        lemma_digits_concat(ip, f);
        lemma_pow10_values();
        lemma_quotient(n as int * 100 + 50, 100, n as int);
    } else {
        let head = f.subrange(0, 2);
        let tail = f.subrange(2, k as int);
        lemma_part_of_digits(f, 0, 2);
        lemma_part_of_digits(f, 2, k as int);
        assert(two_places(f) =~= head);
        assert(ip + f =~= base + tail);
        lemma_digits_concat(ip, head);
        lemma_value_concat(base, tail);
        let b = digits_value(base);
        let p = pow10(tail.len());
        let r = digits_value(tail);
        lemma_value_bound(tail);
        lemma_pow10_positive(tail.len());
        assert(n == b * p + r);
        // the first digit behind the two places decides
        let first = seq![tail[0]];
        let rest = tail.subrange(1, tail.len() as int);
        lemma_part_of_digits(tail, 1, tail.len() as int);
        assert(tail =~= first + rest);
        lemma_value_concat(first, rest);
        lemma_value_bound(rest);
        lemma_pow10_positive(rest.len());
        let c = digit_value(tail[0]);
        assert(is_digit(tail[0]));
        lemma_value_of_one(tail[0]);
        assert(digits_value(first) == c);
        let q = pow10(rest.len());
        assert(p == 10 * q);
        assert(r == c * q + digits_value(rest));
        assert(tail[0] == f[2]);
        let up = f[2] >= '5';
        assert(up <==> c >= 5);
        assert(up <==> 2 * r >= p) by {
            if c >= 5 {
                assert(c * q >= 5 * q) by (nonlinear_arith)
                    requires
                        c >= 5,
                        q >= 1,
                ;
            } else {
                assert(c * q <= 4 * q) by (nonlinear_arith)
                    requires
                        0 <= c <= 4,
                        q >= 1,
                ;
            }
        }
        // ten to the k is a hundred times ten to the length of the tail
        assert(pow10(k) == 100 * p) by {
            lemma_pow10_two_more(tail.len());
        }
        let scale = pow10(k);
        assert(scale / 2 == 50 * p);
        let x = n * 100 + scale / 2;
        assert(x == (b * p + r) * 100 + 50 * p);
        if up {
            assert((b + 1) * (100 * p) <= x && x < (b + 2) * (100 * p)) by (nonlinear_arith)
                requires
                    x == (b * p + r) * 100 + 50 * p,
                    2 * r >= p,
                    r < p,
                    p >= 1,
            ;
            lemma_quotient(x as int, scale as int, b as int + 1);
            lemma_increment_value(base);
            lemma_increment_digits(base);
        } else {
            assert(b * (100 * p) <= x && x < (b + 1) * (100 * p)) by (nonlinear_arith)
                requires
                    x == (b * p + r) * 100 + 50 * p,
                    2 * r < p,
                    r >= 0,
                    p >= 1,
            ;
            lemma_quotient(x as int, scale as int, b as int);
        }
    }
}

/// Ten to the power of two more is a hundred times as much.
pub proof fn lemma_pow10_two_more(k: nat)
    ensures
        pow10(k + 2) == 100 * pow10(k),
{
    assert(pow10(k + 1) == 10 * pow10(k));
    assert(pow10(k + 2) == 10 * pow10(k + 1));
}

/// An amount with two decimals writes the number of hundredths nearest to
/// the amount: its digits before the point and its two digits behind it,
/// read as one number, are that number; and the digits before the point
/// start with a zero only where they are that one digit.
pub proof fn law_normalized_amount_value(a: Seq<char>)
    requires
        is_amount(a),
    ensures
        normalized_amount(a).len() >= 4,
        normalized_amount(a)[normalized_amount(a).len() - 3] == '.',
        all_digits(normalized_amount(a).subrange(0, normalized_amount(a).len() - 3)),
        all_digits(
            normalized_amount(a).subrange(
                normalized_amount(a).len() - 2,
                normalized_amount(a).len() as int,
            ),
        ),
        digits_value(
            normalized_amount(a).subrange(0, normalized_amount(a).len() - 3)
                + normalized_amount(a).subrange(
                normalized_amount(a).len() - 2,
                normalized_amount(a).len() as int,
            ),
        ) == nearest_hundredths(a),
        normalized_amount(a).len() > 4 ==> normalized_amount(a)[0] != '0',
{
    law_hundredths_value(a);
    let hd = hundredths(a);
    lemma_amount_parts(a);
    assert(hd.len() >= 3) by {
        let base = integer_part(a) + two_places(fraction_part(a));
        assert(base.len() >= 3);
        if fraction_part(a).len() > 2 {
            lemma_part_of_digits(fraction_part(a), 0, 2);
            assert(two_places(fraction_part(a)) =~= fraction_part(a).subrange(0, 2));
            lemma_digits_concat(integer_part(a), fraction_part(a).subrange(0, 2));
            lemma_increment_digits(base);
        }
    }
    lemma_strip_zeros(hd, 3);
    lemma_strip_zeros_value(hd, 3);
    lemma_strip_zeros_first(hd, 3);
    let h = strip_zeros(hd, 3);
    let n = normalized_amount(a);
    let m = n.len() as int;
    assert(m == h.len() + 1);
    assert(n.subrange(0, m - 3) =~= h.subrange(0, h.len() - 2));
    assert(n.subrange(m - 2, m) =~= h.subrange(h.len() - 2, h.len() as int));
    lemma_part_of_digits(h, 0, h.len() - 2);
    lemma_part_of_digits(h, h.len() - 2, h.len() as int);
    assert(h.subrange(0, h.len() - 2) + h.subrange(h.len() - 2, h.len() as int) =~= h);
    assert(n[m - 3] == '.');
    if m > 4 {
        assert(n[0] == h[0]);
    }
}

/// Digits stripped of their zeros start with a zero only where no more may
/// be stripped.
pub proof fn lemma_strip_zeros_first(d: Seq<char>, keep: int)
    requires
        0 <= keep <= d.len(),
    ensures
        strip_zeros(d, keep).len() > keep ==> strip_zeros(d, keep)[0] != '0',
    decreases d.len(),
{
    if d.len() > keep && d.len() > 0 && d[0] == '0' {
        lemma_strip_zeros_first(d.drop_first(), keep);
    }
}

/// An amount of at most two decimals is a whole number of hundredths:
/// rounding to hundredths changes nothing of it.
pub proof fn law_two_decimals_are_exact(a: Seq<char>)
    requires
        is_amount(a),
        fraction_part(a).len() <= 2,
    ensures
        nearest_hundredths(a) * pow10(fraction_part(a).len()) == digits_value(
            integer_part(a) + fraction_part(a),
        ) * 100,
{
    lemma_pow10_values();
    let n = digits_value(integer_part(a) + fraction_part(a));
    let k = fraction_part(a).len();
    let scale = pow10(k);
    let x = nearest_hundredths(a);
    assert(x == (n * 100 + scale / 2) / scale);
    if k == 0 {
        assert(scale == 1);
        lemma_quotient(n as int * 100, 1, n as int * 100);
        assert(x == n * 100);
        assert(x * scale == n * 100);
    } else if k == 1 {
        assert(scale == 10);
        lemma_quotient(n as int * 100 + 5, 10, n as int * 10);
        assert(x == n * 10);
        assert(x * scale == n * 100);
    } else {
        assert(scale == 100);
        lemma_quotient(n as int * 100 + 50, 100, n as int);
        assert(x == n);
        assert(x * scale == n * 100);
    }
}

} // verus!
