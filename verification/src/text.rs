//! Characters and digits, and the way from a string to its characters and
//! back.

use vstd::prelude::*;

verus! {

/// `c` is one of `0` to `9`.
pub open spec fn is_digit(c: char) -> bool {
    '0' <= c && c <= '9'
}

/// `c` is one of `A` to `Z`.
pub open spec fn is_upper(c: char) -> bool {
    'A' <= c && c <= 'Z'
}

/// The number that the digit `c` stands for.
pub open spec fn digit_value(c: char) -> int {
    c as int - '0' as int
}

/// The digit that stands for `n`, for `n` below ten.
pub open spec fn digit_char(n: int) -> char {
    (n + '0' as int) as char
}

/// Every character of `s` is a digit.
pub open spec fn all_digits(s: Seq<char>) -> bool {
    forall|i: int| 0 <= i < s.len() ==> is_digit(#[trigger] s[i])
}

/// Every character of `s` is an upper case letter.
pub open spec fn all_upper(s: Seq<char>) -> bool {
    forall|i: int| 0 <= i < s.len() ==> is_upper(#[trigger] s[i])
}

/// The number written by two digits.
pub open spec fn two_digit_value(a: char, b: char) -> int {
    digit_value(a) * 10 + digit_value(b)
}

/// `n`, below one hundred, written with two digits.
pub open spec fn two_digits(n: int) -> Seq<char> {
    seq![digit_char(n / 10), digit_char(n % 10)]
}

/// `n`, below ten thousand, written with four digits.
pub open spec fn four_digits(n: int) -> Seq<char> {
    two_digits(n / 100) + two_digits(n % 100)
}

/// The characters of a string slice, in order.
pub fn chars_of(s: &str) -> (v: Vec<char>)
    ensures
        v@ == s@,
{
    let mut out: Vec<char> = Vec::new();
    for c in it: s.chars()
        invariant
            it.seq() == s@,
            out@ == it.seq().subrange(0, it.index() as int),
    {
        out.push(c);
        proof {
            assert(out@ =~= it.seq().subrange(0, it.index() + 1));
        }
    }
    proof {
        assert(out@ =~= s@);
    }
    out
}

/// std's `String::push` appends the given character to the end of the
/// string and changes nothing else.
pub assume_specification[ String::push ](s: &mut String, c: char)
    ensures
        final(s)@ == old(s)@.push(c),
;

/// The string of the given characters, in order.
pub fn string_of(v: &[char]) -> (s: String)
    ensures
        s@ == v@,
{
    let n: usize = v.len();
    let mut out: String = String::new();
    let mut i: usize = 0;
    while i < n
        invariant
            n == v@.len(),
            i <= n,
            out@ == v@.subrange(0, i as int),
        decreases n - i,
    {
        out.push(v[i]);
        proof {
            assert(out@ =~= v@.subrange(0, i + 1));
        }
        i += 1;
    }
    proof {
        assert(v@.subrange(0, n as int) =~= v@);
    }
    out
}

/// Tells whether `c` is a digit.
pub fn char_is_digit(c: char) -> (r: bool)
    ensures
        r == is_digit(c),
{
    '0' <= c && c <= '9'
}

/// Tells whether `c` is an upper case letter.
pub fn char_is_upper(c: char) -> (r: bool)
    ensures
        r == is_upper(c),
{
    'A' <= c && c <= 'Z'
}

/// The value of a digit.
pub fn digit_to_number(c: char) -> (r: u8)
    requires
        is_digit(c),
    ensures
        r as int == digit_value(c),
        r <= 9,
{
    (c as u32 - '0' as u32) as u8
}

/// The digit for a number below ten.
pub fn number_to_digit(n: u8) -> (r: char)
    requires
        n <= 9,
    ensures
        r == digit_char(n as int),
        is_digit(r),
        digit_value(r) == n as int,
{
    (n + 48u8) as char
}

/// Tells whether the characters of `s` from `from` up to `to` are all digits.
pub fn range_all_digits(s: &[char], from: usize, to: usize) -> (r: bool)
    requires
        from <= to <= s@.len(),
    ensures
        r == all_digits(s@.subrange(from as int, to as int)),
{
    let mut i: usize = from;
    while i < to
        invariant
            from <= i <= to <= s@.len(),
            all_digits(s@.subrange(from as int, i as int)),
        decreases to - i,
    {
        if !char_is_digit(s[i]) {
            proof {
                let sub = s@.subrange(from as int, to as int);
                assert(sub[i - from] == s@[i as int]);
            }
            return false;
        }
        proof {
            let next = s@.subrange(from as int, i + 1);
            assert forall|k: int| 0 <= k < next.len() implies is_digit(#[trigger] next[k]) by {
                if k < i - from {
                    assert(s@.subrange(from as int, i as int)[k] == next[k]);
                }
            }
        }
        i += 1;
    }
    true
}

/// Tells whether the characters of `s` from `from` up to `to` are all upper
/// case letters.
pub fn range_all_upper(s: &[char], from: usize, to: usize) -> (r: bool)
    requires
        from <= to <= s@.len(),
    ensures
        r == all_upper(s@.subrange(from as int, to as int)),
{
    let mut i: usize = from;
    while i < to
        invariant
            from <= i <= to <= s@.len(),
            all_upper(s@.subrange(from as int, i as int)),
        decreases to - i,
    {
        if !char_is_upper(s[i]) {
            proof {
                let sub = s@.subrange(from as int, to as int);
                assert(sub[i - from] == s@[i as int]);
            }
            return false;
        }
        proof {
            let next = s@.subrange(from as int, i + 1);
            assert forall|k: int| 0 <= k < next.len() implies is_upper(#[trigger] next[k]) by {
                if k < i - from {
                    assert(s@.subrange(from as int, i as int)[k] == next[k]);
                }
            }
        }
        i += 1;
    }
    true
}

} // verus!

verus! {

/// The first position at or after `from` where `s` holds `c`; the length of
/// `s` where it holds none.
pub open spec fn index_from(s: Seq<char>, c: char, from: int) -> int
    decreases s.len() - from,
{
    if from < 0 || from >= s.len() {
        s.len() as int
    } else if s[from] == c {
        from
    } else {
        index_from(s, c, from + 1)
    }
}

/// What `index_from` finds lies between `from` and the end, holds `c` unless
/// it is the end, and nothing before it does.
pub proof fn lemma_index_from(s: Seq<char>, c: char, from: int)
    requires
        0 <= from <= s.len(),
    ensures
        from <= index_from(s, c, from) <= s.len(),
        index_from(s, c, from) < s.len() ==> s[index_from(s, c, from)] == c,
        forall|k: int| from <= k < index_from(s, c, from) ==> s[k] != c,
    decreases s.len() - from,
{
    if from < s.len() && s[from] != c {
        lemma_index_from(s, c, from + 1);
    }
}

/// A position that holds `c`, with none before it from `from` on, is what
/// `index_from` finds.
pub proof fn lemma_index_from_is(s: Seq<char>, c: char, from: int, at: int)
    requires
        0 <= from <= at <= s.len(),
        at < s.len() ==> s[at] == c,
        forall|k: int| from <= k < at ==> s[k] != c,
    ensures
        index_from(s, c, from) == at,
    decreases at - from,
{
    if from < at {
        lemma_index_from_is(s, c, from + 1, at);
    }
}

/// Finds the first `c` at or after `from`.
pub fn find_char(s: &[char], c: char, from: usize) -> (r: usize)
    requires
        from <= s@.len(),
    ensures
        r as int == index_from(s@, c, from as int),
        from <= r <= s@.len(),
        r < s@.len() ==> s@[r as int] == c,
        forall|k: int| from <= k < r ==> s@[k] != c,
{
    let n: usize = s.len();
    let mut i: usize = from;
    while i < n && s[i] != c
        invariant
            n == s@.len(),
            from <= i <= n,
            index_from(s@, c, from as int) == index_from(s@, c, i as int),
        decreases n - i,
    {
        i += 1;
    }
    proof {
        lemma_index_from(s@, c, from as int);
    }
    i
}

/// Copies the characters of `s` from `from` up to `to`.
pub fn copy_range(s: &[char], from: usize, to: usize) -> (r: Vec<char>)
    requires
        from <= to <= s@.len(),
    ensures
        r@ == s@.subrange(from as int, to as int),
{
    let mut out: Vec<char> = Vec::new();
    let mut i: usize = from;
    while i < to
        invariant
            from <= i <= to <= s@.len(),
            out@ == s@.subrange(from as int, i as int),
        decreases to - i,
    {
        out.push(s[i]);
        proof {
            assert(out@ =~= s@.subrange(from as int, i + 1));
        }
        i += 1;
    }
    out
}

/// Appends the characters of `s` to `out`.
pub fn push_all(out: &mut Vec<char>, s: &[char])
    ensures
        final(out)@ == old(out)@ + s@,
{
    let n: usize = s.len();
    let mut i: usize = 0;
    while i < n
        invariant
            n == s@.len(),
            i <= n,
            out@ == old(out)@ + s@.subrange(0, i as int),
        decreases n - i,
    {
        out.push(s[i]);
        proof {
            assert(out@ =~= old(out)@ + s@.subrange(0, i + 1));
        }
        i += 1;
    }
    proof {
        assert(s@.subrange(0, n as int) =~= s@);
    }
}

/// Tells whether two slices hold the same characters.
pub fn same_chars(a: &[char], b: &[char]) -> (r: bool)
    ensures
        r == (a@ == b@),
{
    let n: usize = a.len();
    if n != b.len() {
        return false;
    }
    let mut i: usize = 0;
    while i < n
        invariant
            n == a@.len(),
            n == b@.len(),
            i <= n,
            a@.subrange(0, i as int) == b@.subrange(0, i as int),
        decreases n - i,
    {
        if a[i] != b[i] {
            return false;
        }
        proof {
            assert(a@.subrange(0, i + 1) =~= a@.subrange(0, i as int).push(a@[i as int]));
            assert(b@.subrange(0, i + 1) =~= b@.subrange(0, i as int).push(b@[i as int]));
        }
        i += 1;
    }
    proof {
        assert(a@.subrange(0, n as int) =~= a@);
        assert(b@.subrange(0, n as int) =~= b@);
    }
    true
}

/// `s` holds no `c`.
pub open spec fn has_no(s: Seq<char>, c: char) -> bool {
    forall|i: int| 0 <= i < s.len() ==> #[trigger] s[i] != c
}

/// Two texts without `c`, one behind the other, are a text without `c`.
pub proof fn lemma_has_no_concat(a: Seq<char>, b: Seq<char>, c: char)
    requires
        has_no(a, c),
        has_no(b, c),
    ensures
        has_no(a + b, c),
{
    assert forall|i: int| 0 <= i < (a + b).len() implies #[trigger] (a + b)[i] != c by {
        if i < a.len() {
            assert((a + b)[i] == a[i]);
        } else {
            assert((a + b)[i] == b[i - a.len()]);
        }
    }
}

/// A part of a text without `c` is a text without `c`.
pub proof fn lemma_has_no_subrange(s: Seq<char>, c: char, from: int, to: int)
    requires
        has_no(s, c),
        0 <= from <= to <= s.len(),
    ensures
        has_no(s.subrange(from, to), c),
{
    assert forall|i: int| 0 <= i < to - from implies #[trigger] s.subrange(from, to)[i] != c by {
        assert(s.subrange(from, to)[i] == s[from + i]);
    }
}

} // verus!
