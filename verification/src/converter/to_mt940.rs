//! From a nested document to statement texts, one for each of its
//! statements.

use vstd::prelude::*;
use crate::amount::{check_amount, is_amount, points_to_commas, with_commas};
use crate::camt053::format::{Balance, Camt053, Entry, Statement};
use crate::dates::{
    decode_iso, lemma_two_digits, lemma_yymmdd_round_trip, push_yymmdd, read_iso, render_yymmdd,
    Date,
};
use crate::errors::{role_code, BalanceRole, Fault, ParserError};
use crate::mt940::balance::{decode_balance, decode_balance_chars};
use crate::mt940::format::{
    balance_views, opt_text, transaction_views, BalanceView, BasicHeaderBlock, BasicHeaderView,
    EntryMark, Mt940, Mt940View, StatementBalance, StatementModel, StatementView, TagView,
    Transaction, TransactionView,
};
use crate::mt940::transaction::{
    amount_start, decode_transaction, decode_transaction_chars, entry_date_of, entry_len,
    funds_code_at, is_amount_char, lemma_run_end_is, lemma_slashes_is, mark_at, mark_start,
    mark_text, reference_of, supplementary_of, type_of,
};
use crate::text::{char_is_digit, chars_of, copy_range, is_digit, push_all, same_chars, string_of};

verus! {

/// The characters of an optional text; none where there is no text.
pub open spec fn text_or_empty(o: Option<String>) -> Seq<char> {
    match o {
        Some(s) => s@,
        None => Seq::empty(),
    }
}

/// The role code of a balance node.
pub open spec fn code_of(b: Balance) -> Option<Seq<char>> {
    match b.tp {
        Some(tp) => match tp.cd_or_prtry {
            Some(cp) => opt_text(cp.cd),
            None => None,
        },
        None => None,
    }
}

/// The position of the first balance node from `from` on that has the role
/// code; the number of nodes where none has it.
pub open spec fn balance_index(bal: Seq<Balance>, code: Seq<char>, from: int) -> int
    decreases bal.len() - from,
{
    if from < 0 || from >= bal.len() {
        bal.len() as int
    } else if code_of(bal[from]) == Some(code) {
        from
    } else {
        balance_index(bal, code, from + 1)
    }
}

/// The wire sign of an indicator: `C` for `C` and `CRDT` and where there is
/// no indicator, `D` for `D` and `DBIT`, and nothing for anything else.
pub open spec fn sign_text(indicator: Option<Seq<char>>) -> Seq<char> {
    match indicator {
        None => seq!['C'],
        Some(t) => if t == seq!['C'] || t == seq!['C', 'R', 'D', 'T'] {
            seq!['C']
        } else if t == seq!['D'] || t == seq!['D', 'B', 'I', 'T'] {
            seq!['D']
        } else {
            Seq::empty()
        },
    }
}

/// The date text of a balance node: its date, or else its date with time.
pub open spec fn date_source(b: Balance) -> Option<Seq<char>> {
    match b.dt {
        Some(d) => match d.dt {
            Some(t) => Some(t@),
            None => opt_text(d.dt_tm),
        },
        None => None,
    }
}

/// Six zeros: what stands for a date that could not be read.
pub open spec fn no_date() -> Seq<char> {
    seq!['0', '0', '0', '0', '0', '0']
}

/// The six wire digits for a date text `YYYY-MM-DD`; six zeros where there
/// is no text or it is no such date.
pub open spec fn wire_date(source: Option<Seq<char>>) -> Seq<char> {
    match source {
        Some(t) => match decode_iso(t) {
            Some(d) => render_yymmdd(d),
            None => no_date(),
        },
        None => no_date(),
    }
}

/// The currency of an amount node; `EUR` where it names none.
pub open spec fn currency_source(b: Balance) -> Seq<char> {
    match b.amt {
        Some(a) => match a.currency {
            Some(c) => c@,
            None => seq!['E', 'U', 'R'],
        },
        None => seq!['E', 'U', 'R'],
    }
}

/// The value of an amount node; `0.0` where it has none.
pub open spec fn value_source(b: Balance) -> Seq<char> {
    match b.amt {
        Some(a) => match a.value {
            Some(v) => v@,
            None => seq!['0', '.', '0'],
        },
        None => seq!['0', '.', '0'],
    }
}

/// A balance node written as a wire balance: sign, six digits, currency, and
/// the value with a comma for its point.
pub open spec fn balance_line(b: Balance) -> Seq<char> {
    sign_text(opt_text(b.cdt_dbt_ind)) + wire_date(date_source(b)) + currency_source(b)
        + with_commas(value_source(b))
}

/// The account of a statement node: its IBAN, or else its other
/// identifier, or else nothing.
pub open spec fn account_of(x: Statement) -> Seq<char> {
    match x.acct {
        Some(a) => match a.id {
            Some(id) => match id.iban {
                Some(t) => t@,
                None => match id.other {
                    Some(o) => text_or_empty(o.id),
                    None => Seq::empty(),
                },
            },
            None => Seq::empty(),
        },
        None => Seq::empty(),
    }
}

/// The digits among the first `n` characters of `s`, in order.
pub open spec fn digits_of(s: Seq<char>, n: int) -> Seq<char>
    decreases n,
{
    if n <= 0 {
        Seq::empty()
    } else if is_digit(s[n - 1]) {
        digits_of(s, n - 1).push(s[n - 1])
    } else {
        digits_of(s, n - 1)
    }
}

/// The last five characters of `d`, or all of it where it has no more.
pub open spec fn last_five(d: Seq<char>) -> Seq<char> {
    if d.len() > 5 {
        d.subrange(d.len() - 5, d.len() as int)
    } else {
        d
    }
}

/// The sequence number of a statement node: the electronic one, or else the
/// legal one, or else nothing.
pub open spec fn sequence_source(x: Statement) -> Seq<char> {
    match x.elctrnc_seq_nb {
        Some(t) => t@,
        None => text_or_empty(x.lgl_seq_nb),
    }
}

/// The statement number: the last five digits of the sequence number, and
/// `/1` behind them.
pub open spec fn number_of(x: Statement) -> Seq<char> {
    last_five(digits_of(sequence_source(x), sequence_source(x).len() as int)) + seq!['/', '1']
}

/// The wire amount of an entry: its value with a comma for its point;
/// nothing where the entry has no value.
pub open spec fn entry_amount(e: Entry) -> Seq<char> {
    match e.amt {
        Some(a) => match a.value {
            Some(v) => with_commas(v@),
            None => Seq::empty(),
        },
        None => Seq::empty(),
    }
}

/// The mark of an entry: a debit for `DBIT` and `D`, a credit otherwise.
pub open spec fn entry_mark(e: Entry) -> EntryMark {
    match e.cdt_dbt_ind {
        Some(t) => if t@ == seq!['D', 'B', 'I', 'T'] || t@ == seq!['D'] {
            EntryMark::Debit
        } else {
            EntryMark::Credit
        },
        None => EntryMark::Credit,
    }
}

/// What stands for the type identifier and the reference of a line that is
/// made from an entry.
pub open spec fn placeholder_tail() -> Seq<char> {
    seq!['N', 'T', 'R', 'F', '/', '/', 'N', 'O', 'N', 'R', 'E', 'F']
}

/// What stands for the narrative of a line that is made from an entry.
pub open spec fn placeholder_narrative() -> Seq<char> {
    seq![
        'T',
        'R',
        'A',
        'N',
        'S',
        'A',
        'C',
        'T',
        'I',
        'O',
        'N',
        ' ',
        'D',
        'E',
        'T',
        'A',
        'I',
        'L',
    ]
}

/// The statement line that is made for an entry: the date, the mark, the
/// amount and the placeholder tail.
pub open spec fn entry_line(date: Date, mark: EntryMark, amount: Seq<char>) -> Seq<char> {
    render_yymmdd(date) + mark_text(mark) + amount + placeholder_tail()
}

/// The transaction type that stands in a line made from an entry.
pub open spec fn placeholder_type() -> Seq<char> {
    seq!['N', 'T', 'R', 'F']
}

/// The reference that stands in a line made from an entry.
pub open spec fn placeholder_reference() -> Seq<char> {
    seq!['N', 'O', 'N', 'R', 'E', 'F']
}

/// The transaction that is made for an entry.
pub open spec fn placeholder_transaction(date: Date, mark: EntryMark, amount: Seq<char>) -> TransactionView {
    TransactionView {
        value_date: date,
        entry_date: None,
        mark,
        funds_code: None,
        amount,
        transaction_type: Some(placeholder_type()),
        reference: Some(placeholder_reference()),
        supplementary: None,
        narrative: Some(placeholder_narrative()),
        raw: entry_line(date, mark, amount),
    }
}

/// The transaction of an entry: its amount and its mark, with the date and
/// the placeholders for all that an entry does not tell. An entry whose
/// amount is no wire amount fails as an invalid transaction that carries the
/// amount.
pub open spec fn transaction_of(e: Entry, date: Date) -> Result<TransactionView, Fault> {
    if is_amount(entry_amount(e)) {
        Ok(placeholder_transaction(date, entry_mark(e), entry_amount(e)))
    } else {
        Err(Fault::InvalidTransaction(entry_amount(e)))
    }
}

/// The transactions of the first `n` entries, in order, or the failure of
/// the first entry that has one.
pub open spec fn transactions_of(ntry: Seq<Entry>, date: Date, n: int) -> Result<
    Seq<TransactionView>,
    Fault,
>
    decreases n,
{
    if n <= 0 {
        Ok(Seq::empty())
    } else {
        match transactions_of(ntry, date, n - 1) {
            Err(f) => Err(f),
            Ok(done) => match transaction_of(ntry[n - 1], date) {
                Err(f) => Err(f),
                Ok(t) => Ok(done.push(t)),
            },
        }
    }
}

/// The node has the code of a forward available balance.
pub open spec fn is_forward_node(b: Balance) -> bool {
    code_of(b) == Some(role_code(BalanceRole::ForwardAvailable))
}

/// The forward available balances among the first `n` nodes, in order, or
/// the failure of the first such node whose wire balance does not decode.
pub open spec fn forwards_of(bal: Seq<Balance>, n: int) -> Result<Seq<BalanceView>, Fault>
    decreases n,
{
    if n <= 0 {
        Ok(Seq::empty())
    } else {
        match forwards_of(bal, n - 1) {
            Err(f) => Err(f),
            Ok(done) => if is_forward_node(bal[n - 1]) {
                match decode_balance(balance_line(bal[n - 1]), BalanceRole::ForwardAvailable) {
                    Err(f) => Err(f),
                    Ok(v) => Ok(done.push(v)),
                }
            } else {
                Ok(done)
            },
        }
    }
}

/// The closing available balance of a statement node: none where no node
/// has that role; else what the line of the first such node decodes into,
/// or its failure.
pub open spec fn closing_available_of(x: Statement) -> Result<Option<BalanceView>, Fault> {
    let i = balance_index(x.bal@, role_code(BalanceRole::ClosingAvailable), 0);
    if 0 <= i < x.bal@.len() {
        match decode_balance(balance_line(x.bal@[i]), BalanceRole::ClosingAvailable) {
            Ok(v) => Ok(Some(v)),
            Err(f) => Err(f),
        }
    } else {
        Ok(None)
    }
}

/// The statement that a statement node becomes. A node without a closing
/// balance fails with `MissingBalance` of that role, then one without an
/// opening balance likewise. Then the opening and the closing balance must
/// decode, each entry must give a transaction, and the closing available
/// balance and each forward available balance must decode: the first that
/// does not, in this order, fails the statement.
pub open spec fn statement_of(msg_id: Seq<char>, x: Statement) -> Result<StatementView, Fault> {
    let ci = balance_index(x.bal@, role_code(BalanceRole::Closing), 0);
    let oi = balance_index(x.bal@, role_code(BalanceRole::Opening), 0);
    if !(0 <= ci < x.bal@.len()) {
        Err(Fault::MissingBalance(BalanceRole::Closing))
    } else if !(0 <= oi < x.bal@.len()) {
        Err(Fault::MissingBalance(BalanceRole::Opening))
    } else {
        match decode_balance(balance_line(x.bal@[oi]), BalanceRole::Opening) {
            Err(f) => Err(f),
            Ok(opening) => match decode_balance(balance_line(x.bal@[ci]), BalanceRole::Closing) {
                Err(f) => Err(f),
                Ok(closing) => match transactions_of(x.ntry@, closing.date, x.ntry@.len() as int) {
                    Err(f) => Err(f),
                    Ok(transactions) => match closing_available_of(x) {
                        Err(f) => Err(f),
                        Ok(available) => match forwards_of(x.bal@, x.bal@.len() as int) {
                            Err(f) => Err(f),
                            Ok(forward) => Ok(
                                StatementView {
                                    reference: msg_id,
                                    statement_id: opt_text(x.id),
                                    account: account_of(x),
                                    statement_number: number_of(x),
                                    opening_balance: opening,
                                    transactions,
                                    closing_balance: closing,
                                    closing_available: available,
                                    forward_available: forward,
                                    extras: Seq::empty(),
                                },
                            ),
                        },
                    },
                },
            },
        }
    }
}

/// A statement in an envelope with empty headers.
pub open spec fn in_empty_envelope(s: StatementView) -> Mt940View {
    Mt940View {
        basic_header: BasicHeaderView {
            application_identifier: Seq::empty(),
            service_identifier: Seq::empty(),
            lt_identifier: Seq::empty(),
            session_number: Seq::empty(),
            sequence_number: Seq::empty(),
        },
        application_header: Seq::empty(),
        user_header: None,
        statement: s,
        footer: None,
    }
}

/// The statement texts of the first `n` statement nodes, in order, or the
/// failure of the first node that has one. Every text gets the message id of
/// the document as its reference.
pub open spec fn statements_of(c: Camt053, n: int) -> Result<Seq<Mt940View>, Fault>
    decreases n,
{
    if n <= 0 {
        Ok(Seq::empty())
    } else {
        match statements_of(c, n - 1) {
            Err(f) => Err(f),
            Ok(done) => match statement_of(
                text_or_empty(c.bk_to_cstmr_stmt.grp_hdr.msg_id),
                c.bk_to_cstmr_stmt.stmts@[n - 1],
            ) {
                Err(f) => Err(f),
                Ok(s) => Ok(done.push(in_empty_envelope(s))),
            },
        }
    }
}

/// What a nested document converts into: one statement text for each of its
/// statement nodes, or the first failure, which leaves nothing.
pub open spec fn mt940s_of(c: Camt053) -> Result<Seq<Mt940View>, Fault> {
    statements_of(c, c.bk_to_cstmr_stmt.stmts@.len() as int)
}

/// The views of a sequence of statement texts.
pub open spec fn mt940_views(v: Seq<Mt940>) -> Seq<Mt940View> {
    Seq::new(v.len(), |i: int| v[i]@)
}

/// Tells whether a balance node has the role code.
pub fn has_code(b: &Balance, code: &[char]) -> (r: bool)
    ensures
        r == (code_of(*b) == Some(code@)),
{
    match &b.tp {
        Some(tp) => match &tp.cd_or_prtry {
            Some(cp) => match &cp.cd {
                Some(c) => {
                    let chars = chars_of(c.as_str());
                    same_chars(chars.as_slice(), code)
                },
                None => false,
            },
            None => false,
        },
        None => false,
    }
}

/// Finds the first balance node of a statement node that has the role.
fn find_balance_index(stmt: &Statement, role: BalanceRole) -> (r: usize)
    ensures
        r as int == balance_index(stmt.bal@, role_code(role), 0),
        r <= stmt.bal@.len(),
{
    let code = role.code();
    let n: usize = stmt.bal.len();
    let mut i: usize = 0;
    while i < n && !has_code(&stmt.bal[i], code.as_slice())
        invariant
            n == stmt.bal@.len(),
            i <= n,
            code@ == role_code(role),
            balance_index(stmt.bal@, role_code(role), 0) == balance_index(
                stmt.bal@,
                role_code(role),
                i as int,
            ),
        decreases n - i,
    {
        i += 1;
    }
    i
}

/// Finds the first balance node of a statement node that has the role; a
/// statement node without one fails with `MissingBalance` of that role.
pub fn find_balance<'a>(stmt: &'a Statement, role: BalanceRole) -> (r: Result<
    &'a Balance,
    ParserError,
>)
    ensures
        match r {
            Ok(b) => 0 <= balance_index(stmt.bal@, role_code(role), 0) < stmt.bal@.len() && *b
                == stmt.bal@[balance_index(stmt.bal@, role_code(role), 0)],
            Err(e) => balance_index(stmt.bal@, role_code(role), 0) == stmt.bal@.len() && e@
                == Fault::MissingBalance(role),
        },
{
    let i: usize = find_balance_index(stmt, role);
    if i < stmt.bal.len() {
        Ok(&stmt.bal[i])
    } else {
        Err(ParserError::MissingBalance(role))
    }
}

/// Tells whether a text is the one given character.
fn is_one(s: &[char], a: char) -> (r: bool)
    ensures
        r == (s@ == seq![a]),
{
    let r = s.len() == 1 && s[0] == a;
    proof {
        if r {
            assert(s@ =~= seq![a]);
        } else if s@ == seq![a] {
            assert(seq![a][0] == a);
        }
    }
    r
}

/// Tells whether a text is the four given characters.
fn is_four(s: &[char], a: char, b: char, c: char, d: char) -> (r: bool)
    ensures
        r == (s@ == seq![a, b, c, d]),
{
    let r = s.len() == 4 && s[0] == a && s[1] == b && s[2] == c && s[3] == d;
    proof {
        let lit = seq![a, b, c, d];
        if r {
            assert(s@ =~= lit);
        } else if s@ == lit {
            assert(lit[0] == a && lit[1] == b && lit[2] == c && lit[3] == d);
        }
    }
    r
}

/// Appends the wire sign of an indicator.
fn push_sign(out: &mut Vec<char>, indicator: &Option<String>)
    ensures
        final(out)@ == old(out)@ + sign_text(opt_text(*indicator)),
{
    match indicator {
        None => {
            out.push('C');
        },
        Some(t) => {
            let chars = chars_of(t.as_str());
            let s: &[char] = chars.as_slice();
            if is_one(s, 'C') || is_four(s, 'C', 'R', 'D', 'T') {
                out.push('C');
            } else if is_one(s, 'D') || is_four(s, 'D', 'B', 'I', 'T') {
                out.push('D');
            }
        },
    }
    proof {
        assert(final(out)@ =~= old(out)@ + sign_text(opt_text(*indicator)));
    }
}

/// Appends the six wire digits for the date of a balance node.
fn push_wire_date(out: &mut Vec<char>, b: &Balance)
    ensures
        final(out)@ == old(out)@ + wire_date(date_source(*b)),
{
    let date: Option<Date> = match &b.dt {
        Some(d) => match &d.dt {
            Some(t) => {
                let chars = chars_of(t.as_str());
                read_iso(chars.as_slice())
            },
            None => match &d.dt_tm {
                Some(t) => {
                    let chars = chars_of(t.as_str());
                    read_iso(chars.as_slice())
                },
                None => None,
            },
        },
        None => None,
    };
    match date {
        Some(d) => {
            push_yymmdd(out, d);
        },
        None => {
            let zeros = vec!['0', '0', '0', '0', '0', '0'];
            assert(zeros@ =~= no_date());
            push_all(out, zeros.as_slice());
        },
    }
}

/// Writes a balance node as a wire balance: the sign for its indicator, six
/// digits for its date, its currency or `EUR`, and its value, or `0.0`, with
/// a comma for its point.
pub fn format_mt940_balance_line(bal: &Balance) -> (r: String)
    ensures
        r@ == balance_line(*bal),
{
    let mut out: Vec<char> = Vec::new();
    push_sign(&mut out, &bal.cdt_dbt_ind);
    push_wire_date(&mut out, bal);
    let default_currency = vec!['E', 'U', 'R'];
    let default_value = vec!['0', '.', '0'];
    assert(default_currency@ =~= seq!['E', 'U', 'R']);
    assert(default_value@ =~= seq!['0', '.', '0']);
    let currency: Vec<char> = match &bal.amt {
        Some(a) => match &a.currency {
            Some(c) => chars_of(c.as_str()),
            None => default_currency,
        },
        None => default_currency,
    };
    let value: Vec<char> = match &bal.amt {
        Some(a) => match &a.value {
            Some(v) => chars_of(v.as_str()),
            None => default_value,
        },
        None => default_value,
    };
    push_all(&mut out, currency.as_slice());
    let wire = points_to_commas(value.as_slice());
    push_all(&mut out, wire.as_slice());
    proof {
        assert(out@ =~= balance_line(*bal));
    }
    string_of(out.as_slice())
}

/// Decodes the wire balance of a balance node in the given role.
fn decode_node(b: &Balance, role: BalanceRole) -> (r: Result<StatementBalance, ParserError>)
    ensures
        match r {
            Ok(v) => decode_balance(balance_line(*b), role) == Ok::<BalanceView, Fault>(v@),
            Err(e) => decode_balance(balance_line(*b), role) == Err::<BalanceView, Fault>(e@),
        },
{
    let line = format_mt940_balance_line(b);
    let chars = chars_of(line.as_str());
    decode_balance_chars(chars.as_slice(), role)
}

/// The account of a statement node.
fn account_text(x: &Statement) -> (r: String)
    ensures
        r@ == account_of(*x),
{
    match &x.acct {
        Some(a) => match &a.id {
            Some(id) => match &id.iban {
                Some(t) => t.clone(),
                None => match &id.other {
                    Some(o) => match &o.id {
                        Some(t) => t.clone(),
                        None => String::new(),
                    },
                    None => String::new(),
                },
            },
            None => String::new(),
        },
        None => String::new(),
    }
}

/// The statement number of a statement node.
fn number_text(x: &Statement) -> (r: String)
    ensures
        r@ == number_of(*x),
{
    let source: Vec<char> = match &x.elctrnc_seq_nb {
        Some(t) => chars_of(t.as_str()),
        None => match &x.lgl_seq_nb {
            Some(t) => chars_of(t.as_str()),
            None => Vec::new(),
        },
    };
    assert(source@ == sequence_source(*x));
    let n: usize = source.len();
    let mut digits: Vec<char> = Vec::new();
    let mut i: usize = 0;
    while i < n
        invariant
            n == source@.len(),
            i <= n,
            digits@ == digits_of(source@, i as int),
        decreases n - i,
    {
        let c: char = source[i];
        if char_is_digit(c) {
            digits.push(c);
        }
        i += 1;
    }
    let m: usize = digits.len();
    let mut out: Vec<char> = if m > 5 {
        copy_range(digits.as_slice(), m - 5, m)
    } else {
        digits
    };
    assert(out@ == last_five(digits_of(source@, n as int)));
    out.push('/');
    out.push('1');
    proof {
        assert(out@ =~= number_of(*x));
    }
    string_of(out.as_slice())
}

/// The line that is made for an entry decodes: into its date, its mark, its
/// amount and the placeholders.
pub proof fn lemma_entry_line_decodes(date: Date, mark: EntryMark, amount: Seq<char>)
    requires
        date.is_valid(),
        date.in_pivot_window(),
        mark == EntryMark::Debit || mark == EntryMark::Credit,
        is_amount(amount),
    ensures
        decode_transaction(entry_line(date, mark, amount)) == Ok::<TransactionView, Fault>(
            TransactionView {
                value_date: date,
                entry_date: None,
                mark,
                funds_code: None,
                amount,
                transaction_type: Some(placeholder_type()),
                reference: Some(placeholder_reference()),
                supplementary: None,
                narrative: None,
                raw: entry_line(date, mark, amount),
            },
        ),
{
    let line = entry_line(date, mark, amount);
    let d = render_yymmdd(date);
    let tail = placeholder_tail();
    lemma_two_digits(date.year as int % 100);
    lemma_two_digits(date.month as int);
    lemma_two_digits(date.day as int);
    lemma_yymmdd_round_trip(date);
    assert(d.len() == 6);
    assert(mark_text(mark).len() == 1);
    let m = mark_text(mark)[0];
    assert(m == 'D' || m == 'C');
    let n = amount.len() as int;
    assert(line.len() == 7 + n + 12);
    assert(line.subrange(0, 6) =~= d);
    assert(line[6] == m);
    assert forall|k: int| 0 <= k < n implies line[7 + k] == amount[k] by {}
    assert forall|k: int| 0 <= k < 12 implies line[7 + n + k] == tail[k] by {}
    // no entry date: the mark is no digit
    assert(entry_len(line) == 0) by {
        if line.len() >= 10 {
            let e = line.subrange(6, 10);
            assert(e[0] == line[6]);
            assert(!is_digit(e[0]));
        }
    }
    assert(mark_start(line) == 6);
    assert(mark_at(line, 6) == Some((mark, 1int)));
    // no funds code: the amount starts with a digit
    assert(line[7] == amount[0]);
    assert(is_digit(line[7]));
    assert(funds_code_at(line, 7) is None);
    assert(amount_start(line) == 7);
    // the amount runs up to the tail
    assert forall|k: int| 7 <= k < 7 + n implies is_amount_char(#[trigger] line[k]) by {
        assert(line[k] == amount[k - 7]);
    }
    assert(line[7 + n] == tail[0]);
    assert(tail[0] == 'N');
    lemma_run_end_is(line, 7, 7 + n);
    assert(line.subrange(7, 7 + n) =~= amount);
    let rem = line.subrange(7 + n, line.len() as int);
    assert(rem =~= tail);
    assert(tail[4] == '/' && tail[5] == '/');
    assert(tail[0] == 'N' && tail[1] == 'T' && tail[2] == 'R' && tail[3] == 'F');
    lemma_slashes_is(tail, 0, 4);
    assert(tail.subrange(0, 4) =~= placeholder_type());
    assert(tail.subrange(6, 12) =~= placeholder_reference());
    assert(type_of(rem) == Some(placeholder_type()));
    assert(reference_of(rem) == Some(placeholder_reference()));
    assert(supplementary_of(rem) is None);
    assert(entry_date_of(line, date.year as int) is None);
}

/// A failure among the first `k` entries is the failure among the first
/// `n`, for `n` from `k` on.
pub proof fn lemma_transactions_fault_stays(ntry: Seq<Entry>, date: Date, k: int, n: int)
    requires
        k <= n,
        transactions_of(ntry, date, k) is Err,
    ensures
        transactions_of(ntry, date, n) == transactions_of(ntry, date, k),
    decreases n - k,
{
    if k < n {
        lemma_transactions_fault_stays(ntry, date, k, n - 1);
    }
}

/// A failure among the first `k` nodes is the failure among the first `n`,
/// for `n` from `k` on.
pub proof fn lemma_forwards_fault_stays(bal: Seq<Balance>, k: int, n: int)
    requires
        k <= n,
        forwards_of(bal, k) is Err,
    ensures
        forwards_of(bal, n) == forwards_of(bal, k),
    decreases n - k,
{
    if k < n {
        lemma_forwards_fault_stays(bal, k, n - 1);
    }
}

/// The transaction of an entry.
fn entry_transaction(e: &Entry, date: Date) -> (r: Result<Transaction, ParserError>)
    requires
        date.is_valid(),
        date.in_pivot_window(),
    ensures
        match r {
            Ok(t) => transaction_of(*e, date) == Ok::<TransactionView, Fault>(t@),
            Err(f) => transaction_of(*e, date) == Err::<TransactionView, Fault>(f@),
        },
{
    let amount: Vec<char> = match &e.amt {
        Some(a) => match &a.value {
            Some(v) => {
                let chars = chars_of(v.as_str());
                points_to_commas(chars.as_slice())
            },
            None => Vec::new(),
        },
        None => Vec::new(),
    };
    assert(amount@.subrange(0, amount@.len() as int) =~= amount@);
    if !check_amount(amount.as_slice(), 0, amount.len()) {
        return Err(ParserError::InvalidTransaction(string_of(amount.as_slice())));
    }
    let debit: bool = match &e.cdt_dbt_ind {
        Some(t) => {
            let chars = chars_of(t.as_str());
            is_four(chars.as_slice(), 'D', 'B', 'I', 'T') || is_one(chars.as_slice(), 'D')
        },
        None => false,
    };
    let mut line: Vec<char> = Vec::new();
    push_yymmdd(&mut line, date);
    line.push(if debit { 'D' } else { 'C' });
    push_all(&mut line, amount.as_slice());
    let tail = vec!['N', 'T', 'R', 'F', '/', '/', 'N', 'O', 'N', 'R', 'E', 'F'];
    assert(tail@ =~= placeholder_tail());
    push_all(&mut line, tail.as_slice());
    proof {
        assert(mark_text(entry_mark(*e)) =~= seq![if debit { 'D' } else { 'C' }]);
        assert(line@ =~= entry_line(date, entry_mark(*e), amount@));
        lemma_entry_line_decodes(date, entry_mark(*e), amount@);
    }
    match decode_transaction_chars(line.as_slice()) {
        Ok(t) => {
            let narrative = vec![
                'T',
                'R',
                'A',
                'N',
                'S',
                'A',
                'C',
                'T',
                'I',
                'O',
                'N',
                ' ',
                'D',
                'E',
                'T',
                'A',
                'I',
                'L',
            ];
            assert(narrative@ =~= placeholder_narrative());
            Ok(
                Transaction {
                    value_date: t.value_date,
                    entry_date: t.entry_date,
                    mark: t.mark,
                    funds_code: t.funds_code,
                    amount: t.amount,
                    transaction_type: t.transaction_type,
                    reference: t.reference,
                    supplementary: t.supplementary,
                    narrative: Some(string_of(narrative.as_slice())),
                    raw: t.raw,
                },
            )
        },
        Err(f) => Err(f),
    }
}

/// The transactions of the entries of a statement node.
fn entry_transactions(ntry: &Vec<Entry>, date: Date) -> (r: Result<Vec<Transaction>, ParserError>)
    requires
        date.is_valid(),
        date.in_pivot_window(),
    ensures
        match r {
            Ok(v) => transactions_of(ntry@, date, ntry@.len() as int) == Ok::<
                Seq<TransactionView>,
                Fault,
            >(transaction_views(v@)),
            Err(f) => transactions_of(ntry@, date, ntry@.len() as int) == Err::<
                Seq<TransactionView>,
                Fault,
            >(f@),
        },
{
    let n: usize = ntry.len();
    let mut out: Vec<Transaction> = Vec::new();
    let mut i: usize = 0;
    proof {
        assert(transaction_views(out@) =~= Seq::<TransactionView>::empty());
    }
    while i < n
        invariant
            n == ntry@.len(),
            i <= n,
            date.is_valid(),
            date.in_pivot_window(),
            transactions_of(ntry@, date, i as int) == Ok::<Seq<TransactionView>, Fault>(
                transaction_views(out@),
            ),
        decreases n - i,
    {
        match entry_transaction(&ntry[i], date) {
            Ok(t) => {
                let ghost before = transaction_views(out@);
                out.push(t);
                proof {
                    assert(transaction_views(out@) =~= before.push(t@));
                }
            },
            Err(f) => {
                proof {
                    assert(transactions_of(ntry@, date, i + 1) == Err::<
                        Seq<TransactionView>,
                        Fault,
                    >(f@));
                    lemma_transactions_fault_stays(ntry@, date, i + 1, n as int);
                }
                return Err(f);
            },
        }
        i += 1;
    }
    Ok(out)
}

/// The forward available balances of the balance nodes of a statement node.
fn forward_balances(bal: &Vec<Balance>) -> (r: Result<Vec<StatementBalance>, ParserError>)
    ensures
        match r {
            Ok(v) => forwards_of(bal@, bal@.len() as int) == Ok::<Seq<BalanceView>, Fault>(
                balance_views(v@),
            ),
            Err(f) => forwards_of(bal@, bal@.len() as int) == Err::<Seq<BalanceView>, Fault>(f@),
        },
{
    let code = BalanceRole::ForwardAvailable.code();
    let n: usize = bal.len();
    let mut out: Vec<StatementBalance> = Vec::new();
    let mut i: usize = 0;
    proof {
        assert(balance_views(out@) =~= Seq::<BalanceView>::empty());
    }
    while i < n
        invariant
            n == bal@.len(),
            i <= n,
            code@ == role_code(BalanceRole::ForwardAvailable),
            forwards_of(bal@, i as int) == Ok::<Seq<BalanceView>, Fault>(balance_views(out@)),
        decreases n - i,
    {
        if has_code(&bal[i], code.as_slice()) {
            match decode_node(&bal[i], BalanceRole::ForwardAvailable) {
                Ok(v) => {
                    let ghost before = balance_views(out@);
                    out.push(v);
                    proof {
                        assert(balance_views(out@) =~= before.push(v@));
                    }
                },
                Err(f) => {
                    proof {
                        assert(forwards_of(bal@, i + 1) == Err::<Seq<BalanceView>, Fault>(f@));
                        lemma_forwards_fault_stays(bal@, i + 1, n as int);
                    }
                    return Err(f);
                },
            }
        }
        i += 1;
    }
    Ok(out)
}

/// Converts one statement node into a statement.
pub fn statement_from_node(msg_id: &str, x: &Statement) -> (r: Result<StatementModel, ParserError>)
    ensures
        match r {
            Ok(s) => statement_of(msg_id@, *x) == Ok::<StatementView, Fault>(s@),
            Err(e) => statement_of(msg_id@, *x) == Err::<StatementView, Fault>(e@),
        },
{
    let closing_node: &Balance = match find_balance(x, BalanceRole::Closing) {
        Ok(b) => b,
        Err(e) => {
            return Err(e);
        },
    };
    let opening_node: &Balance = match find_balance(x, BalanceRole::Opening) {
        Ok(b) => b,
        Err(e) => {
            return Err(e);
        },
    };
    let opening_balance = match decode_node(opening_node, BalanceRole::Opening) {
        Ok(v) => v,
        Err(e) => {
            return Err(e);
        },
    };
    let closing_balance = match decode_node(closing_node, BalanceRole::Closing) {
        Ok(v) => v,
        Err(e) => {
            return Err(e);
        },
    };
    proof {
        crate::mt940::balance::lemma_decoded_balance_is_well_formed(
            balance_line(*closing_node),
            BalanceRole::Closing,
        );
    }
    let transactions = match entry_transactions(&x.ntry, closing_balance.date) {
        Ok(v) => v,
        Err(e) => {
            return Err(e);
        },
    };
    let closing_available: Option<StatementBalance> = match find_balance(
        x,
        BalanceRole::ClosingAvailable,
    ) {
        Ok(b) => match decode_node(b, BalanceRole::ClosingAvailable) {
            Ok(v) => Some(v),
            Err(e) => {
                return Err(e);
            },
        },
        Err(_) => None,
    };
    let forward_available = match forward_balances(&x.bal) {
        Ok(v) => v,
        Err(e) => {
            return Err(e);
        },
    };
    let extras: Vec<crate::mt940::format::Tag> = Vec::new();
    proof {
        assert(crate::mt940::format::tag_views(extras@) =~= Seq::<TagView>::empty());
    }
    Ok(
        StatementModel {
            reference: string_of(chars_of(msg_id).as_slice()),
            statement_id: crate::converter::to_camt053::clone_text(&x.id),
            account: account_text(x),
            statement_number: number_text(x),
            opening_balance,
            transactions,
            closing_balance,
            closing_available,
            forward_available,
            extras,
        },
    )
}

/// Converts one statement node into a statement text with empty headers.
fn envelope_from_node(msg_id: &str, x: &Statement) -> (r: Result<Mt940, ParserError>)
    ensures
        match r {
            Ok(m) => statement_of(msg_id@, *x) is Ok && m@ == in_empty_envelope(
                statement_of(msg_id@, *x)->Ok_0,
            ),
            Err(e) => statement_of(msg_id@, *x) == Err::<StatementView, Fault>(e@),
        },
{
    match statement_from_node(msg_id, x) {
        Ok(statement) => Ok(
            Mt940 {
                basic_header: BasicHeaderBlock::default(),
                application_header: String::new(),
                user_header: None,
                statement,
                footer: None,
            },
        ),
        Err(e) => Err(e),
    }
}

/// Converts a nested document into statement texts, one for each of its
/// statement nodes and in their order, each in an envelope with empty
/// headers. The message id of the document is the reference of every one of
/// them. The first statement node that fails, fails the whole conversion:
/// nothing is handed out then.
pub fn to_mt940(camt: &Camt053) -> (r: Result<Vec<Mt940>, ParserError>)
    ensures
        match r {
            Ok(v) => mt940s_of(*camt) == Ok::<Seq<Mt940View>, Fault>(mt940_views(v@)),
            Err(e) => mt940s_of(*camt) == Err::<Seq<Mt940View>, Fault>(e@),
        },
{
    let msg_id: String = match &camt.bk_to_cstmr_stmt.grp_hdr.msg_id {
        Some(t) => t.clone(),
        None => String::new(),
    };
    let n: usize = camt.bk_to_cstmr_stmt.stmts.len();
    let mut out: Vec<Mt940> = Vec::new();
    let mut i: usize = 0;
    proof {
        assert(mt940_views(out@) =~= Seq::<Mt940View>::empty());
    }
    while i < n
        invariant
            n == camt.bk_to_cstmr_stmt.stmts@.len(),
            i <= n,
            msg_id@ == text_or_empty(camt.bk_to_cstmr_stmt.grp_hdr.msg_id),
            statements_of(*camt, i as int) == Ok::<Seq<Mt940View>, Fault>(mt940_views(out@)),
        decreases n - i,
    {
        let ghost before = mt940_views(out@);
        match envelope_from_node(msg_id.as_str(), &camt.bk_to_cstmr_stmt.stmts[i]) {
            Ok(item) => {
                out.push(item);
                proof {
                    assert(mt940_views(out@) =~= before.push(item@));
                }
            },
            Err(e) => {
                proof {
                    assert(statements_of(*camt, i + 1) == Err::<Seq<Mt940View>, Fault>(e@));
                    lemma_statements_fault_stays(*camt, i + 1, n as int);
                }
                return Err(e);
            },
        }
        i += 1;
    }
    Ok(out)
}

/// A failure among the first `k` statement nodes is the failure among the
/// first `n`, for `n` from `k` on.
pub proof fn lemma_statements_fault_stays(c: Camt053, k: int, n: int)
    requires
        k <= n,
        statements_of(c, k) is Err,
    ensures
        statements_of(c, n) == statements_of(c, k),
    decreases n - k,
{
    if k < n {
        lemma_statements_fault_stays(c, k, n - 1);
    }
}

} // verus!
