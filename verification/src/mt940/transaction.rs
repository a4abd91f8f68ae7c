//! The grammar of a statement line: value date, entry date, mark, funds
//! code, amount, and a free remainder.

use vstd::prelude::*;
use vstd::slice::slice_subrange;
use crate::amount::{check_amount, is_amount};
use crate::dates::{
    decode_yymmdd, is_calendar_date, make_date, read_two_digits, read_yymmdd, Date, MonthDay,
};
use crate::errors::{Fault, ParserError};
use crate::mt940::format::{EntryMark, Transaction, TransactionView};
use crate::text::{
    all_digits, char_is_digit, char_is_upper, chars_of, is_digit, is_upper, range_all_digits,
    string_of, two_digit_value,
};

verus! {

/// The number of characters that the entry date takes: four where four digits
/// follow the value date, none otherwise.
pub open spec fn entry_len(body: Seq<char>) -> int {
    if body.len() >= 10 && all_digits(body.subrange(6, 10)) {
        4
    } else {
        0
    }
}

/// The entry date: the four digits as month and day, where that day exists
/// in `year`; none where it does not, or where there are no four digits.
pub open spec fn entry_date_of(body: Seq<char>, year: int) -> Option<MonthDay> {
    if entry_len(body) == 4 {
        let month = two_digit_value(body[6], body[7]);
        let day = two_digit_value(body[8], body[9]);
        if is_calendar_date(year, month, day) {
            Some(MonthDay { month: month as u8, day: day as u8 })
        } else {
            None
        }
    } else {
        None
    }
}

/// The mark that stands at `p`, with its length: `RD` and `RC` before `D`
/// and `C`.
pub open spec fn mark_at(body: Seq<char>, p: int) -> Option<(EntryMark, int)> {
    if p < 0 || p >= body.len() {
        None
    } else if body[p] == 'R' && p + 1 < body.len() && body[p + 1] == 'D' {
        Some((EntryMark::ReversalDebit, 2))
    } else if body[p] == 'R' && p + 1 < body.len() && body[p + 1] == 'C' {
        Some((EntryMark::ReversalCredit, 2))
    } else if body[p] == 'D' {
        Some((EntryMark::Debit, 1))
    } else if body[p] == 'C' {
        Some((EntryMark::Credit, 1))
    } else {
        None
    }
}

/// The characters by which a mark is written.
pub open spec fn mark_text(mark: EntryMark) -> Seq<char> {
    match mark {
        EntryMark::Debit => seq!['D'],
        EntryMark::Credit => seq!['C'],
        EntryMark::ReversalDebit => seq!['R', 'D'],
        EntryMark::ReversalCredit => seq!['R', 'C'],
    }
}

/// The funds code at `p`: an upper case letter, if one stands there.
pub open spec fn funds_code_at(body: Seq<char>, p: int) -> Option<char> {
    if 0 <= p < body.len() && is_upper(body[p]) {
        Some(body[p])
    } else {
        None
    }
}

/// `c` may stand in an amount.
pub open spec fn is_amount_char(c: char) -> bool {
    is_digit(c) || c == ','
}

/// The end of the run of amount characters that starts at `p`.
pub open spec fn run_end(s: Seq<char>, p: int) -> int
    decreases s.len() - p,
{
    if 0 <= p < s.len() && is_amount_char(s[p]) {
        run_end(s, p + 1)
    } else {
        p
    }
}

/// The first position at or after `from` where two slashes stand; the length
/// of `s` where none do.
pub open spec fn slashes_from(s: Seq<char>, from: int) -> int
    decreases s.len() - from,
{
    if from < 0 || from + 1 >= s.len() {
        s.len() as int
    } else if s[from] == '/' && s[from + 1] == '/' {
        from
    } else {
        slashes_from(s, from + 1)
    }
}

/// The transaction type identifier in a remainder: what stands before the
/// two slashes, where that is three characters or more; without slashes, the
/// first three characters, where there are three.
pub open spec fn type_of(rem: Seq<char>) -> Option<Seq<char>> {
    let k = slashes_from(rem, 0);
    if k < rem.len() {
        if k >= 3 {
            Some(rem.subrange(0, k))
        } else {
            None
        }
    } else if rem.len() >= 3 {
        Some(rem.subrange(0, 3))
    } else {
        None
    }
}

/// The reference in a remainder: what stands behind the two slashes.
pub open spec fn reference_of(rem: Seq<char>) -> Option<Seq<char>> {
    let k = slashes_from(rem, 0);
    if 0 <= k < rem.len() {
        Some(rem.subrange(k + 2, rem.len() as int))
    } else {
        None
    }
}

/// The supplementary text in a remainder without slashes: what stands behind
/// the first three characters, or all of a remainder shorter than three.
pub open spec fn supplementary_of(rem: Seq<char>) -> Option<Seq<char>> {
    let k = slashes_from(rem, 0);
    if k < rem.len() {
        None
    } else if rem.len() > 3 {
        Some(rem.subrange(3, rem.len() as int))
    } else if 0 < rem.len() < 3 {
        Some(rem)
    } else {
        None
    }
}

/// Where the mark of a line starts.
pub open spec fn mark_start(body: Seq<char>) -> int {
    6 + entry_len(body)
}

/// Where the amount of a line starts, given its mark.
pub open spec fn amount_start(body: Seq<char>) -> int {
    let p = mark_start(body) + (mark_at(body, mark_start(body))->0).1;
    if funds_code_at(body, p) is Some {
        p + 1
    } else {
        p
    }
}

/// What the body of a statement line decodes into: the line where it follows
/// the grammar, and an invalid transaction that carries the body where it
/// does not. The narrative of a decoded line is empty.
pub open spec fn decode_transaction(body: Seq<char>) -> Result<TransactionView, Fault> {
    if body.len() < 6 || decode_yymmdd(body.subrange(0, 6)) is None {
        Err(Fault::InvalidTransaction(body))
    } else if mark_at(body, mark_start(body)) is None {
        Err(Fault::InvalidTransaction(body))
    } else {
        let date = decode_yymmdd(body.subrange(0, 6))->0;
        let from = amount_start(body);
        let to = run_end(body, from);
        if !(0 <= from <= to <= body.len()) || !is_amount(body.subrange(from, to)) {
            Err(Fault::InvalidTransaction(body))
        } else {
            let rem = body.subrange(to, body.len() as int);
            Ok(
                TransactionView {
                    value_date: date,
                    entry_date: entry_date_of(body, date.year as int),
                    mark: (mark_at(body, mark_start(body))->0).0,
                    funds_code: funds_code_at(
                        body,
                        mark_start(body) + (mark_at(body, mark_start(body))->0).1,
                    ),
                    amount: body.subrange(from, to),
                    transaction_type: type_of(rem),
                    reference: reference_of(rem),
                    supplementary: supplementary_of(rem),
                    narrative: None,
                    raw: body,
                },
            )
        }
    }
}

/// The run of amount characters from `p` ends between `p` and the end.
pub proof fn lemma_run_end(s: Seq<char>, p: int)
    requires
        0 <= p <= s.len(),
    ensures
        p <= run_end(s, p) <= s.len(),
        forall|k: int| p <= k < run_end(s, p) ==> is_amount_char(#[trigger] s[k]),
        run_end(s, p) < s.len() ==> !is_amount_char(s[run_end(s, p)]),
    decreases s.len() - p,
{
    if p < s.len() && is_amount_char(s[p]) {
        lemma_run_end(s, p + 1);
    }
}

/// Finds the end of the run of amount characters from `p`.
pub fn find_run_end(s: &[char], p: usize) -> (r: usize)
    requires
        p <= s@.len(),
    ensures
        r as int == run_end(s@, p as int),
        p <= r <= s@.len(),
{
    let n: usize = s.len();
    let mut i: usize = p;
    while i < n && (char_is_digit(s[i]) || s[i] == ',')
        invariant
            n == s@.len(),
            p <= i <= n,
            run_end(s@, p as int) == run_end(s@, i as int),
        decreases n - i,
    {
        i += 1;
    }
    i
}

/// Finds the first two slashes at or after `from`.
pub fn find_slashes(s: &[char], from: usize) -> (r: usize)
    requires
        from <= s@.len(),
    ensures
        r as int == slashes_from(s@, from as int),
        from <= r <= s@.len(),
        r < s@.len() ==> r + 2 <= s@.len(),
{
    let n: usize = s.len();
    let mut i: usize = from;
    while n - i > 1 && !(s[i] == '/' && s[i + 1] == '/')
        invariant
            n == s@.len(),
            from <= i <= n,
            slashes_from(s@, from as int) == slashes_from(s@, i as int),
        decreases n - i,
    {
        i += 1;
    }
    if n - i > 1 {
        i
    } else {
        n
    }
}

/// The three free fields of a remainder.
pub fn split_remainder(rem: &[char]) -> (r: (Option<String>, Option<String>, Option<String>))
    ensures
        crate::mt940::format::opt_text(r.0) == type_of(rem@),
        crate::mt940::format::opt_text(r.1) == reference_of(rem@),
        crate::mt940::format::opt_text(r.2) == supplementary_of(rem@),
{
    let n: usize = rem.len();
    let k: usize = find_slashes(rem, 0);
    if k < n {
        let kind = if k >= 3 {
            Some(string_of(slice_subrange(rem, 0, k)))
        } else {
            None
        };
        (kind, Some(string_of(slice_subrange(rem, k + 2, n))), None)
    } else if n > 3 {
        (
            Some(string_of(slice_subrange(rem, 0, 3))),
            None,
            Some(string_of(slice_subrange(rem, 3, n))),
        )
    } else if n == 3 {
        (Some(string_of(slice_subrange(rem, 0, 3))), None, None)
    } else if n > 0 {
        (None, None, Some(string_of(rem)))
    } else {
        (None, None, None)
    }
}

/// Decodes the characters of the body of a statement line.
pub fn decode_transaction_chars(body: &[char]) -> (r: Result<Transaction, ParserError>)
    ensures
        match r {
            Ok(t) => decode_transaction(body@) == Ok::<TransactionView, Fault>(t@),
            Err(e) => decode_transaction(body@) == Err::<TransactionView, Fault>(e@),
        },
{
    let n: usize = body.len();
    if n < 6 {
        return Err(ParserError::InvalidTransaction(string_of(body)));
    }
    let date: Date = match read_yymmdd(body, 0) {
        Some(d) => d,
        None => {
            return Err(ParserError::InvalidTransaction(string_of(body)));
        },
    };
    let mut p: usize = 6;
    let mut entry_date: Option<MonthDay> = None;
    if n >= 10 && range_all_digits(body, 6, 10) {
        proof {
            let e = body@.subrange(6, 10);
            assert(e[0] == body@[6] && e[1] == body@[7] && e[2] == body@[8] && e[3] == body@[9]);
        }
        let month: u8 = read_two_digits(body, 6);
        let day: u8 = read_two_digits(body, 8);
        if make_date(date.year, month, day).is_some() {
            entry_date = Some(MonthDay { month, day });
        }
        p = 10;
    }
    assert(p as int == mark_start(body@));
    assert(entry_date == entry_date_of(body@, date.year as int));
    if p >= n {
        return Err(ParserError::InvalidTransaction(string_of(body)));
    }
    let c: char = body[p];
    let mark: EntryMark;
    if c == 'R' && n - p > 1 && body[p + 1] == 'D' {
        mark = EntryMark::ReversalDebit;
        p += 2;
    } else if c == 'R' && n - p > 1 && body[p + 1] == 'C' {
        mark = EntryMark::ReversalCredit;
        p += 2;
    } else if c == 'D' {
        mark = EntryMark::Debit;
        p += 1;
    } else if c == 'C' {
        mark = EntryMark::Credit;
        p += 1;
    } else {
        return Err(ParserError::InvalidTransaction(string_of(body)));
    }
    assert(mark_at(body@, mark_start(body@)) == Some((mark, p - mark_start(body@))));
    let mut funds_code: Option<char> = None;
    if p < n && char_is_upper(body[p]) {
        funds_code = Some(body[p]);
        p += 1;
    }
    assert(p as int == amount_start(body@));
    let end: usize = find_run_end(body, p);
    if !check_amount(body, p, end) {
        return Err(ParserError::InvalidTransaction(string_of(body)));
    }
    let (transaction_type, reference, supplementary) = split_remainder(
        slice_subrange(body, end, n),
    );
    Ok(
        Transaction {
            value_date: date,
            entry_date,
            mark,
            funds_code,
            amount: string_of(slice_subrange(body, p, end)),
            transaction_type,
            reference,
            supplementary,
            narrative: None,
            raw: string_of(body),
        },
    )
}

impl Transaction {
    /// Decodes the body of a statement line. The narrative of the result is
    /// empty: it comes from the tags that follow the line.
    pub fn parse(body: &str) -> (r: Result<Transaction, ParserError>)
        ensures
            match r {
                Ok(t) => decode_transaction(body@) == Ok::<TransactionView, Fault>(t@),
                Err(e) => decode_transaction(body@) == Err::<TransactionView, Fault>(e@),
            },
    {
        let chars = chars_of(body);
        decode_transaction_chars(chars.as_slice())
    }
}

/// The run of amount characters from `p` ends at `e`, where only amount
/// characters stand between them and none stands at `e`.
pub proof fn lemma_run_end_is(s: Seq<char>, p: int, e: int)
    requires
        0 <= p <= e <= s.len(),
        forall|k: int| p <= k < e ==> is_amount_char(#[trigger] s[k]),
        e < s.len() ==> !is_amount_char(s[e]),
    ensures
        run_end(s, p) == e,
    decreases e - p,
{
    if p < e {
        lemma_run_end_is(s, p + 1, e);
    }
}

/// The first two slashes from `from` on stand at `at`, where two slashes
/// stand there and at no place before.
pub proof fn lemma_slashes_is(s: Seq<char>, from: int, at: int)
    requires
        0 <= from <= at,
        at + 1 < s.len(),
        s[at] == '/' && s[at + 1] == '/',
        forall|k: int| from <= k < at ==> !(#[trigger] s[k] == '/' && s[k + 1] == '/'),
    ensures
        slashes_from(s, from) == at,
    decreases at - from,
{
    if from < at {
        lemma_slashes_is(s, from + 1, at);
    }
}

} // verus!
