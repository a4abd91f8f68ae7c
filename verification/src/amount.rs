//! Decimal amounts as they are written: digits with at most one separator.
//!
//! Amounts are kept as text. An amount of any length is exact that way, and
//! the one computation on amounts, rounding to hundredths, is done on the
//! digits.

use vstd::prelude::*;
use crate::text::{
    all_digits, char_is_digit, copy_range, digit_char, digit_to_number, digit_value, find_char,
    index_from, is_digit, lemma_index_from, number_to_digit,
};

verus! {

/// `a` is a wire amount: it starts with a digit, holds only digits and
/// commas, and no second comma.
pub open spec fn is_amount(a: Seq<char>) -> bool {
    &&& a.len() > 0
    &&& is_digit(a[0])
    &&& forall|i: int| 0 <= i < a.len() ==> is_digit(#[trigger] a[i]) || a[i] == ','
    &&& forall|i: int, j: int|
        0 <= i < j < a.len() ==> !(#[trigger] a[i] == ',' && #[trigger] a[j] == ',')
}

/// The digits before the comma.
pub open spec fn integer_part(a: Seq<char>) -> Seq<char> {
    a.subrange(0, index_from(a, ',', 0))
}

/// The digits after the comma; none where there is no comma.
pub open spec fn fraction_part(a: Seq<char>) -> Seq<char> {
    if index_from(a, ',', 0) < a.len() {
        a.subrange(index_from(a, ',', 0) + 1, a.len() as int)
    } else {
        Seq::empty()
    }
}

/// The first two digits of a fraction, with zeros where it has fewer.
pub open spec fn two_places(f: Seq<char>) -> Seq<char> {
    if f.len() == 0 {
        seq!['0', '0']
    } else if f.len() == 1 {
        seq![f[0], '0']
    } else {
        seq![f[0], f[1]]
    }
}

/// The digits of the number one above the number that `d` writes.
pub open spec fn increment(d: Seq<char>) -> Seq<char>
    decreases d.len(),
{
    if d.len() == 0 {
        seq!['1']
    } else if d.last() == '9' {
        increment(d.drop_last()).push('0')
    } else {
        d.drop_last().push(digit_char(digit_value(d.last()) + 1))
    }
}

/// `d` without its leading zeros, as far as `keep` digits stay.
pub open spec fn strip_zeros(d: Seq<char>, keep: int) -> Seq<char>
    decreases d.len(),
{
    if d.len() > keep && d.len() > 0 && d[0] == '0' {
        strip_zeros(d.drop_first(), keep)
    } else {
        d
    }
}

/// The digits of an amount counted in hundredths, rounded half up.
pub open spec fn hundredths(a: Seq<char>) -> Seq<char> {
    let f = fraction_part(a);
    let base = integer_part(a) + two_places(f);
    if f.len() > 2 && f[2] >= '5' {
        increment(base)
    } else {
        base
    }
}

/// An amount with a point and exactly two decimals, without needless
/// leading zeros.
pub open spec fn normalized_amount(a: Seq<char>) -> Seq<char> {
    let h = strip_zeros(hundredths(a), 3);
    h.subrange(0, h.len() - 2) + seq!['.'] + h.subrange(h.len() - 2, h.len() as int)
}

/// `s` with every point turned into a comma.
pub open spec fn with_commas(s: Seq<char>) -> Seq<char> {
    Seq::new(s.len(), |i: int| if s[i] == '.' { ',' } else { s[i] })
}

/// The parts of a wire amount are digits, and the whole is the integer part
/// alone or the two parts round a comma.
pub proof fn lemma_amount_parts(a: Seq<char>)
    requires
        is_amount(a),
    ensures
        integer_part(a).len() > 0,
        all_digits(integer_part(a)),
        all_digits(fraction_part(a)),
        index_from(a, ',', 0) == a.len() ==> a == integer_part(a),
        index_from(a, ',', 0) < a.len() ==> a == integer_part(a) + seq![','] + fraction_part(a),
{
    lemma_index_from(a, ',', 0);
    let k = index_from(a, ',', 0);
    assert forall|i: int| 0 <= i < integer_part(a).len() implies is_digit(
        #[trigger] integer_part(a)[i],
    ) by {
        assert(a[i] != ',');
    }
    if k < a.len() {
        assert forall|i: int| 0 <= i < fraction_part(a).len() implies is_digit(
            #[trigger] fraction_part(a)[i],
        ) by {
            assert(fraction_part(a)[i] == a[k + 1 + i]);
            assert(!(a[k] == ',' && a[k + 1 + i] == ','));
        }
        assert(a =~= integer_part(a) + seq![','] + fraction_part(a));
    } else {
        assert(a =~= integer_part(a));
    }
}

/// Incrementing digits gives digits, as many or one more.
pub proof fn lemma_increment_digits(d: Seq<char>)
    requires
        all_digits(d),
    ensures
        all_digits(increment(d)),
        d.len() <= increment(d).len() <= d.len() + 1,
    decreases d.len(),
{
    if d.len() == 0 {
    } else if d.last() == '9' {
        assert forall|i: int| 0 <= i < d.drop_last().len() implies is_digit(
            #[trigger] d.drop_last()[i],
        ) by {
            assert(d.drop_last()[i] == d[i]);
        }
        lemma_increment_digits(d.drop_last());
    } else {
        assert(is_digit(d.last()));
        assert forall|i: int| 0 <= i < increment(d).len() implies is_digit(
            #[trigger] increment(d)[i],
        ) by {
            if i < d.len() - 1 {
                assert(increment(d)[i] == d[i]);
            }
        }
    }
}

/// Stripping zeros from digits leaves digits, at least `keep` of them where
/// there were that many.
pub proof fn lemma_strip_zeros(d: Seq<char>, keep: int)
    requires
        all_digits(d),
        0 <= keep <= d.len(),
    ensures
        all_digits(strip_zeros(d, keep)),
        keep <= strip_zeros(d, keep).len() <= d.len(),
    decreases d.len(),
{
    if d.len() > keep && d.len() > 0 && d[0] == '0' {
        assert forall|i: int| 0 <= i < d.drop_first().len() implies is_digit(
            #[trigger] d.drop_first()[i],
        ) by {
            assert(d.drop_first()[i] == d[i + 1]);
        }
        lemma_strip_zeros(d.drop_first(), keep);
    }
}

/// Tells whether the characters from `from` up to `to` are a wire amount.
pub fn check_amount(s: &[char], from: usize, to: usize) -> (r: bool)
    requires
        from <= to <= s@.len(),
    ensures
        r == is_amount(s@.subrange(from as int, to as int)),
{
    let ghost a = s@.subrange(from as int, to as int);
    if from == to {
        return false;
    }
    if !char_is_digit(s[from]) {
        assert(a[0] == s@[from as int]);
        return false;
    }
    let mut seen: bool = false;
    let mut i: usize = from;
    while i < to
        invariant
            from <= i <= to <= s@.len(),
            a == s@.subrange(from as int, to as int),
            forall|k: int| 0 <= k < i - from ==> is_digit(#[trigger] a[k]) || a[k] == ',',
            forall|k: int, j: int|
                0 <= k < j < i - from ==> !(#[trigger] a[k] == ',' && #[trigger] a[j] == ','),
            seen <==> exists|k: int| 0 <= k < i - from && #[trigger] a[k] == ',',
        decreases to - i,
    {
        let c: char = s[i];
        assert(a[i - from] == c);
        if c == ',' {
            if seen {
                proof {
                    let k = choose|k: int| 0 <= k < i - from && #[trigger] a[k] == ',';
                    assert(a[k] == ',' && a[i - from] == ',');
                }
                return false;
            }
            seen = true;
        } else if !char_is_digit(c) {
            return false;
        }
        i += 1;
    }
    assert(a[0] == s@[from as int]);
    true
}

/// Adds one to the number that the digits write.
pub fn increment_digits(d: &mut Vec<char>)
    requires
        all_digits(old(d)@),
    ensures
        final(d)@ == increment(old(d)@),
{
    let ghost orig = d@;
    let n: usize = d.len();
    let mut i: usize = n;
    proof {
        assert(orig.subrange(0, n as int) =~= orig);
        assert(increment(orig) =~= increment(orig) + d@.subrange(n as int, n as int));
    }
    while i > 0 && d[i - 1] == '9'
        invariant
            orig == old(d)@,
            n == orig.len(),
            d@.len() == n,
            i <= n,
            d@.subrange(0, i as int) == orig.subrange(0, i as int),
            increment(orig) == increment(orig.subrange(0, i as int)) + d@.subrange(
                i as int,
                n as int,
            ),
        decreases i,
    {
        let ghost before = d@;
        d[i - 1] = '0';
        proof {
            let p = orig.subrange(0, i as int);
            assert(before.subrange(0, i as int)[i - 1] == p[i - 1]);
            assert(p.last() == '9');
            assert(p.drop_last() =~= orig.subrange(0, i - 1));
            assert(increment(p) == increment(orig.subrange(0, i - 1)).push('0'));
            assert(d@.subrange(i - 1, n as int) =~= seq!['0'] + before.subrange(
                i as int,
                n as int,
            ));
            assert(increment(orig) =~= increment(orig.subrange(0, i - 1)) + d@.subrange(
                i - 1,
                n as int,
            ));
            assert(d@.subrange(0, i - 1) =~= orig.subrange(0, i - 1));
        }
        i -= 1;
    }
    if i == 0 {
        proof {
            assert(orig.subrange(0, 0) =~= Seq::<char>::empty());
            assert(d@.subrange(0, n as int) =~= d@);
        }
        d.insert(0, '1');
        proof {
            assert(d@ =~= increment(orig));
        }
    } else {
        let ghost before = d@;
        let c: char = d[i - 1];
        proof {
            let p = orig.subrange(0, i as int);
            assert(before.subrange(0, i as int)[i - 1] == p[i - 1]);
            assert(p[i - 1] == orig[i - 1]);
            assert(is_digit(c));
        }
        let up: char = number_to_digit(digit_to_number(c) + 1);
        d[i - 1] = up;
        proof {
            let p = orig.subrange(0, i as int);
            assert(p.last() == c);
            assert(increment(p) == p.drop_last().push(up));
            assert(d@ =~= increment(p) + before.subrange(i as int, n as int));
        }
    }
}

/// The digits of an amount counted in hundredths, before rounding, and
/// whether rounding adds one.
fn hundredths_base(a: &[char]) -> (r: (Vec<char>, bool))
    requires
        is_amount(a@),
    ensures
        r.0@ == integer_part(a@) + two_places(fraction_part(a@)),
        r.1 == (fraction_part(a@).len() > 2 && fraction_part(a@)[2] >= '5'),
        all_digits(r.0@),
        r.0@.len() >= 3,
{
    proof {
        lemma_amount_parts(a@);
        lemma_index_from(a@, ',', 0);
    }
    let n: usize = a.len();
    let k: usize = find_char(a, ',', 0);
    let mut base: Vec<char> = copy_range(a, 0, k);
    let ghost f = fraction_part(a@);
    let ghost ip = integer_part(a@);
    let mut up: bool = false;
    let mut first: char = '0';
    let mut second: char = '0';
    if k < n {
        let m: usize = n - k - 1;
        assert(f.len() == m);
        if m >= 1 {
            first = a[k + 1];
            assert(f[0] == a@[k + 1]);
        }
        if m >= 2 {
            second = a[k + 2];
            assert(f[1] == a@[k + 2]);
        }
        if m >= 3 {
            up = a[k + 3] >= '5';
            assert(f[2] == a@[k + 3]);
        }
    }
    assert(two_places(f) =~= seq![first, second]);
    assert(is_digit(first) && is_digit(second)) by {
        if f.len() >= 1 {
            assert(is_digit(f[0]));
        }
        if f.len() >= 2 {
            assert(is_digit(f[1]));
        }
    }
    base.push(first);
    base.push(second);
    proof {
        assert(base@ =~= ip + two_places(f));
        assert forall|i: int| 0 <= i < base@.len() implies is_digit(#[trigger] base@[i]) by {
            if i < ip.len() {
                assert(base@[i] == ip[i]);
            }
        }
    }
    (base, up)
}

/// Copies digits without their leading zeros, as far as `keep` digits stay.
pub fn strip_leading_zeros(d: &[char], keep: usize) -> (r: Vec<char>)
    ensures
        r@ == strip_zeros(d@, keep as int),
{
    let total: usize = d.len();
    let mut start: usize = 0;
    proof {
        assert(d@.subrange(0, total as int) =~= d@);
    }
    while total - start > keep && d[start] == '0'
        invariant
            total == d@.len(),
            start <= total,
            strip_zeros(d@, keep as int) == strip_zeros(
                d@.subrange(start as int, total as int),
                keep as int,
            ),
        decreases total - start,
    {
        proof {
            let cur = d@.subrange(start as int, total as int);
            assert(cur[0] == d@[start as int]);
            assert(cur.drop_first() =~= d@.subrange(start + 1, total as int));
        }
        start += 1;
    }
    proof {
        let cur = d@.subrange(start as int, total as int);
        if cur.len() > keep {
            assert(cur[0] == d@[start as int]);
        }
        assert(strip_zeros(cur, keep as int) == cur);
    }
    copy_range(d, start, total)
}

/// Drops needless leading zeros and sets the point before the last two
/// digits.
fn set_point(h: &[char]) -> (r: Vec<char>)
    requires
        h@.len() >= 3,
        all_digits(h@),
    ensures
        r@ == strip_zeros(h@, 3).subrange(0, strip_zeros(h@, 3).len() - 2) + seq!['.']
            + strip_zeros(h@, 3).subrange(
            strip_zeros(h@, 3).len() - 2,
            strip_zeros(h@, 3).len() as int,
        ),
{
    let total: usize = h.len();
    let mut start: usize = 0;
    proof {
        assert(h@.subrange(0, total as int) =~= h@);
    }
    while total - start > 3 && h[start] == '0'
        invariant
            total == h@.len(),
            start <= total - 3,
            strip_zeros(h@, 3) == strip_zeros(h@.subrange(start as int, total as int), 3),
        decreases total - start,
    {
        proof {
            let cur = h@.subrange(start as int, total as int);
            assert(cur[0] == h@[start as int]);
            assert(cur.drop_first() =~= h@.subrange(start + 1, total as int));
        }
        start += 1;
    }
    let ghost cur = h@.subrange(start as int, total as int);
    proof {
        if cur.len() > 3 {
            assert(cur[0] == h@[start as int]);
        }
        assert(strip_zeros(cur, 3) == cur);
    }
    let mut out: Vec<char> = copy_range(h, start, total - 2);
    out.push('.');
    out.push(h[total - 2]);
    out.push(h[total - 1]);
    proof {
        assert(out@ =~= cur.subrange(0, cur.len() - 2) + seq!['.'] + cur.subrange(
            cur.len() - 2,
            cur.len() as int,
        ));
    }
    out
}

/// Writes a wire amount with a point and exactly two decimals, rounded half
/// up, without needless leading zeros.
pub fn normalize_amount(a: &[char]) -> (r: Vec<char>)
    requires
        is_amount(a@),
    ensures
        r@ == normalized_amount(a@),
{
    let (mut base, up) = hundredths_base(a);
    if up {
        proof {
            lemma_increment_digits(base@);
        }
        increment_digits(&mut base);
    }
    assert(base@ == hundredths(a@));
    set_point(base.as_slice())
}

/// Copies `s` with every point turned into a comma.
pub fn points_to_commas(s: &[char]) -> (r: Vec<char>)
    ensures
        r@ == with_commas(s@),
{
    let n: usize = s.len();
    let mut out: Vec<char> = Vec::new();
    let mut i: usize = 0;
    while i < n
        invariant
            n == s@.len(),
            i <= n,
            out@.len() == i,
            forall|k: int| 0 <= k < i ==> out@[k] == with_commas(s@)[k],
        decreases n - i,
    {
        let c: char = s[i];
        out.push(if c == '.' { ',' } else { c });
        i += 1;
    }
    proof {
        assert(out@ =~= with_commas(s@));
    }
    out
}

} // verus!
