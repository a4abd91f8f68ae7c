//! What the two conversions do to each other, and what a document without a
//! closing balance converts into.

use vstd::prelude::*;
use crate::amount::{
    fraction_part, hundredths, integer_part, is_amount, lemma_amount_parts, lemma_increment_digits,
    lemma_strip_zeros, normalized_amount, strip_zeros, two_places, with_commas,
};
use crate::camt053::format::{Balance, Camt053, Entry, Statement};
use crate::converter::to_camt053::{
    balance_fields, balance_list, balance_node_at, entry_fields, entry_node_at, is_balance_node,
    is_camt_of, is_entry_node, is_number_part, is_statement_node, mark_indicator,
    sequence_text, sign_indicator,
};
use crate::converter::to_mt940::{
    balance_index, balance_line, closing_available_of, code_of, currency_source, date_source,
    entry_amount, entry_mark, forwards_of, in_empty_envelope, is_forward_node,
    lemma_statements_fault_stays, mt940s_of, placeholder_transaction, sign_text, statement_of,
    statements_of, text_or_empty, transaction_of, transactions_of, value_source, wire_date,
};
use crate::dates::{lemma_iso_round_trip, render_iso, render_yymmdd, Date};
use crate::errors::{role_code, BalanceRole, Fault};
use crate::mt940::balance::{decode_balance, law_balance_round_trip, sign_char};
use crate::mt940::format::{
    opt_text, BalanceView, DebitCredit, EntryMark, Mt940View, StatementView, TransactionView,
};
use crate::text::{all_digits, is_digit};

verus! {

/// A statement node has no balance with the code of the role.
pub open spec fn lacks_balance(x: Statement, role: BalanceRole) -> bool {
    forall|j: int| 0 <= j < x.bal@.len() ==> code_of(#[trigger] x.bal@[j]) != Some(role_code(role))
}

/// Where no balance from `from` on has the code, the search ends behind the
/// last balance.
pub proof fn lemma_balance_index_none(bal: Seq<Balance>, code: Seq<char>, from: int)
    requires
        0 <= from <= bal.len(),
        forall|j: int| from <= j < bal.len() ==> code_of(#[trigger] bal[j]) != Some(code),
    ensures
        balance_index(bal, code, from) == bal.len(),
    decreases bal.len() - from,
{
    if from < bal.len() {
        lemma_balance_index_none(bal, code, from + 1);
    }
}

/// Where the balance at `at` is the first from `from` on that has the code,
/// the search finds it.
pub proof fn lemma_balance_index_is(bal: Seq<Balance>, code: Seq<char>, from: int, at: int)
    requires
        0 <= from <= at < bal.len(),
        code_of(bal[at]) == Some(code),
        forall|j: int| from <= j < at ==> code_of(#[trigger] bal[j]) != Some(code),
    ensures
        balance_index(bal, code, from) == at,
    decreases at - from,
{
    if from < at {
        lemma_balance_index_is(bal, code, from + 1, at);
    }
}

/// A document whose first statement has no balance with the code `CLBD`
/// converts into nothing: the conversion fails with `MissingBalance` of the
/// closing role, whatever else the document holds. So does every document
/// with a statement in which all statements lack that balance.
pub proof fn law_missing_closing_balance(c: Camt053)
    requires
        c.bk_to_cstmr_stmt.stmts@.len() > 0,
        lacks_balance(c.bk_to_cstmr_stmt.stmts@[0], BalanceRole::Closing),
    ensures
        mt940s_of(c) == Err::<Seq<Mt940View>, Fault>(Fault::MissingBalance(BalanceRole::Closing)),
{
    let x = c.bk_to_cstmr_stmt.stmts@[0];
    lemma_balance_index_none(x.bal@, role_code(BalanceRole::Closing), 0);
    assert(statements_of(c, 0) == Ok::<Seq<Mt940View>, Fault>(Seq::empty()));
    assert(statements_of(c, 1) == Err::<Seq<Mt940View>, Fault>(
        Fault::MissingBalance(BalanceRole::Closing),
    ));
    lemma_statements_fault_stays(c, 1, c.bk_to_cstmr_stmt.stmts@.len() as int);
}

/// The four role codes differ from each other.
pub proof fn lemma_role_codes_differ(a: BalanceRole, b: BalanceRole)
    ensures
        role_code(a) == role_code(b) ==> a == b,
{
    let x = role_code(a);
    let y = role_code(b);
    if x == y {
        assert(x[0] == y[0] && x[1] == y[1] && x[2] == y[2] && x[3] == y[3]);
    }
}

/// A wire amount holds no point, so turning points into commas leaves it as
/// it is.
pub proof fn lemma_amount_has_no_point(a: Seq<char>)
    requires
        is_amount(a),
    ensures
        with_commas(a) == a,
{
    assert forall|i: int| 0 <= i < a.len() implies with_commas(a)[i] == a[i] by {
        assert(is_digit(a[i]) || a[i] == ',');
    }
    assert(with_commas(a) =~= a);
}

/// The wire sign of the indicator of a sign is the character of the sign.
pub proof fn lemma_sign_text(sign: DebitCredit)
    ensures
        sign_text(Some(sign_indicator(sign))) == seq![sign_char(sign)],
{
    let t = sign_indicator(sign);
    match sign {
        DebitCredit::Credit => {
            assert(t =~= seq!['C', 'R', 'D', 'T']);
        },
        DebitCredit::Debit => {
            assert(t[0] == 'D');
            assert(seq!['C', 'R', 'D', 'T'][0] == 'C');
            assert(seq!['C'].len() == 1);
            assert(t.len() == 4);
            assert(t =~= seq!['D', 'B', 'I', 'T']);
        },
    }
}

/// The node of a well formed balance, written as a wire balance, is the
/// balance as the grammar writes it, and the node has the code of the role
/// under which it was made.
pub proof fn lemma_node_line(n: Balance, b: BalanceView, role: BalanceRole)
    requires
        b.is_well_formed(),
        b.role == role,
        balance_fields(b, role) is Ok,
        is_balance_node(n, balance_fields(b, role)->Ok_0),
    ensures
        balance_line(n) == b.render(),
        code_of(n) == Some(role_code(role)),
        decode_balance(balance_line(n), role) == Ok::<BalanceView, Fault>(b),
{
    law_balance_round_trip(b);
    let f = balance_fields(b, role)->Ok_0;
    assert(f.value == b.amount);
    assert(f.currency == b.currency_text());
    assert(f.date == render_iso(b.date));
    assert(f.indicator == sign_indicator(b.sign));
    lemma_sign_text(b.sign);
    lemma_iso_round_trip(b.date);
    lemma_amount_has_no_point(b.amount);
    assert(date_source(n) == Some(render_iso(b.date)));
    assert(wire_date(date_source(n)) == render_yymmdd(b.date));
    assert(currency_source(n) == b.currency_text());
    assert(value_source(n) == b.amount);
    assert(opt_text(n.cdt_dbt_ind) == Some(sign_indicator(b.sign)));
    assert(balance_line(n) =~= b.render());
}

/// An amount with two decimals, its point turned into a comma, is a wire
/// amount.
pub proof fn lemma_normalized_is_amount(a: Seq<char>)
    requires
        is_amount(a),
    ensures
        is_amount(with_commas(normalized_amount(a))),
{
    lemma_amount_parts(a);
    let f = fraction_part(a);
    let base = integer_part(a) + two_places(f);
    assert forall|i: int| 0 <= i < base.len() implies is_digit(#[trigger] base[i]) by {
        if i < integer_part(a).len() {
            assert(base[i] == integer_part(a)[i]);
        } else if i - integer_part(a).len() < f.len() {
            assert(base[i] == f[i - integer_part(a).len()]);
        }
    }
    lemma_increment_digits(base);
    let hd = hundredths(a);
    assert(all_digits(hd) && hd.len() >= 3);
    lemma_strip_zeros(hd, 3);
    let h = strip_zeros(hd, 3);
    let n = normalized_amount(a);
    let w = with_commas(n);
    let k = h.len() - 2;
    assert(n.len() == h.len() + 1);
    assert forall|i: int| 0 <= i < w.len() implies (if i == k {
        w[i] == ','
    } else {
        is_digit(#[trigger] w[i])
    }) by {
        if i < k {
            assert(n[i] == h[i]);
        } else if i > k {
            assert(n[i] == h[i - 1]);
        } else {
            assert(n[i] == '.');
        }
    }
    assert(w[k] == ',') by {
        assert(n[k] == '.');
    }
    assert(is_digit(w[0]));
    assert forall|i: int, j: int| 0 <= i < j < w.len() implies !(#[trigger] w[i] == ','
        && #[trigger] w[j] == ',') by {
        if i != k {
            assert(is_digit(w[i]));
        }
        if j != k {
            assert(is_digit(w[j]));
        }
    }
    assert forall|i: int| 0 <= i < w.len() implies is_digit(#[trigger] w[i]) || w[i] == ',' by {
        if i != k {
            assert(is_digit(w[i]));
        }
    }
}

/// A mark without its reversal: a debit stays a debit, and every other mark
/// is a credit.
pub open spec fn plain_mark(mark: EntryMark) -> EntryMark {
    match mark {
        EntryMark::Debit => EntryMark::Debit,
        _ => EntryMark::Credit,
    }
}

/// The entry of a transaction comes back as a transaction with the amount of
/// the first, written with two decimals, and its mark without reversal.
pub proof fn lemma_entry_back(e: Entry, t: TransactionView, date: Date)
    requires
        entry_fields(t) is Ok,
        is_entry_node(e, entry_fields(t)->Ok_0),
    ensures
        transaction_of(e, date) == Ok::<TransactionView, Fault>(
            placeholder_transaction(
                date,
                plain_mark(t.mark),
                with_commas(normalized_amount(t.amount)),
            ),
        ),
{
    assert(is_amount(t.amount));
    lemma_normalized_is_amount(t.amount);
    assert(entry_amount(e) == with_commas(normalized_amount(t.amount)));
    let ind = mark_indicator(t.mark);
    assert(opt_text(e.cdt_dbt_ind) == Some(ind));
    match t.mark {
        EntryMark::Debit => {
            assert(ind =~= seq!['D', 'B', 'I', 'T']);
        },
        _ => {
            assert(ind[0] == 'C');
            assert(seq!['D', 'B', 'I', 'T'][0] == 'D');
            assert(seq!['D'][0] == 'D');
        },
    }
    assert(entry_mark(e) == plain_mark(t.mark));
}

/// The transactions that the entries of transactions come back as.
pub open spec fn transactions_back(ts: Seq<TransactionView>, date: Date) -> Seq<TransactionView> {
    Seq::new(
        ts.len(),
        |i: int|
            placeholder_transaction(
                date,
                plain_mark(ts[i].mark),
                with_commas(normalized_amount(ts[i].amount)),
            ),
    )
}

/// The entries of the first `n` transactions come back as `n` transactions,
/// each as `lemma_entry_back` says.
pub proof fn lemma_entries_back(ntry: Seq<Entry>, ts: Seq<TransactionView>, date: Date, n: int)
    requires
        0 <= n <= ts.len(),
        ntry.len() == ts.len(),
        forall|i: int| 0 <= i < ntry.len() ==> #[trigger] entry_node_at(ntry, ts, i),
    ensures
        transactions_of(ntry, date, n) == Ok::<Seq<TransactionView>, Fault>(
            transactions_back(ts, date).subrange(0, n),
        ),
    decreases n,
{
    if n > 0 {
        lemma_entries_back(ntry, ts, date, n - 1);
        assert(entry_node_at(ntry, ts, n - 1));
        lemma_entry_back(ntry[n - 1], ts[n - 1], date);
        let all = transactions_back(ts, date);
        assert(all.subrange(0, n - 1).push(all[n - 1]) =~= all.subrange(0, n));
    } else {
        assert(transactions_back(ts, date).subrange(0, 0) =~= Seq::<TransactionView>::empty());
    }
}

/// Each node of a statement with well formed balances has the code of its
/// role, and its wire balance decodes into the balance it was made from.
pub proof fn lemma_nodes(s: StatementView, x: Statement)
    requires
        s.has_well_formed_balances(),
        is_statement_node(x, s),
    ensures
        x.bal@.len() == balance_list(s).len(),
        forall|i: int|
            0 <= i < x.bal@.len() ==> code_of(#[trigger] x.bal@[i]) == Some(
                role_code(balance_list(s)[i].1),
            ) && decode_balance(balance_line(x.bal@[i]), balance_list(s)[i].1) == Ok::<
                BalanceView,
                Fault,
            >(balance_list(s)[i].0),
{
    let list = balance_list(s);
    let base: int = if s.closing_available is Some { 3 } else { 2 };
    assert forall|i: int| 0 <= i < x.bal@.len() implies code_of(#[trigger] x.bal@[i]) == Some(
        role_code(list[i].1),
    ) && decode_balance(balance_line(x.bal@[i]), list[i].1) == Ok::<BalanceView, Fault>(
        list[i].0,
    ) by {
        assert(balance_node_at(x.bal@, list, i));
        if i >= base {
            assert(list[i] == (s.forward_available[i - base], BalanceRole::ForwardAvailable));
        }
        assert(crate::mt940::reader::is_balance_of_role(list[i].0, list[i].1));
        lemma_node_line(x.bal@[i], list[i].0, list[i].1);
    }
}

/// The forward available balances among the first `n` nodes are the first
/// forward available balances of the statement.
pub proof fn lemma_forwards_back(s: StatementView, x: Statement, n: int)
    requires
        s.has_well_formed_balances(),
        is_statement_node(x, s),
        0 <= n <= x.bal@.len(),
    ensures
        forwards_of(x.bal@, n) == Ok::<Seq<BalanceView>, Fault>(
            s.forward_available.subrange(
                0,
                if n <= balance_list(s).len() - s.forward_available.len() {
                    0
                } else {
                    n - (balance_list(s).len() - s.forward_available.len())
                },
            ),
        ),
    decreases n,
{
    let list = balance_list(s);
    let base: int = list.len() - s.forward_available.len();
    lemma_nodes(s, x);
    if n == 0 {
        assert(s.forward_available.subrange(0, 0) =~= Seq::<BalanceView>::empty());
    } else {
        lemma_forwards_back(s, x, n - 1);
        let node = x.bal@[n - 1];
        assert(code_of(node) == Some(role_code(list[n - 1].1)));
        if n - 1 < base {
            assert(list[n - 1].1 != BalanceRole::ForwardAvailable);
            lemma_role_codes_differ(list[n - 1].1, BalanceRole::ForwardAvailable);
            assert(!is_forward_node(node));
        } else {
            assert(list[n - 1] == (s.forward_available[n - 1 - base], BalanceRole::ForwardAvailable));
            assert(is_forward_node(node));
            assert(s.forward_available.subrange(0, n - 1 - base).push(
                s.forward_available[n - 1 - base],
            ) =~= s.forward_available.subrange(0, n - base));
        }
    }
}

/// The mandatory balances of a statement with well formed balances are found
/// at the first two nodes, and the closing available balance comes back as
/// it was.
pub proof fn lemma_found_balances(s: StatementView, x: Statement)
    requires
        s.has_well_formed_balances(),
        is_statement_node(x, s),
    ensures
        x.bal@.len() >= 2,
        balance_index(x.bal@, role_code(BalanceRole::Opening), 0) == 0,
        balance_index(x.bal@, role_code(BalanceRole::Closing), 0) == 1,
        decode_balance(balance_line(x.bal@[0]), BalanceRole::Opening) == Ok::<BalanceView, Fault>(
            s.opening_balance,
        ),
        decode_balance(balance_line(x.bal@[1]), BalanceRole::Closing) == Ok::<BalanceView, Fault>(
            s.closing_balance,
        ),
        closing_available_of(x) == Ok::<Option<BalanceView>, Fault>(s.closing_available),
{
    let list = balance_list(s);
    lemma_nodes(s, x);
    let opening = role_code(BalanceRole::Opening);
    let closing = role_code(BalanceRole::Closing);
    let available = role_code(BalanceRole::ClosingAvailable);
    lemma_role_codes_differ(BalanceRole::Opening, BalanceRole::Closing);
    lemma_role_codes_differ(BalanceRole::Opening, BalanceRole::ClosingAvailable);
    lemma_role_codes_differ(BalanceRole::Closing, BalanceRole::ClosingAvailable);
    lemma_role_codes_differ(BalanceRole::ForwardAvailable, BalanceRole::ClosingAvailable);
    assert(list[0] == (s.opening_balance, BalanceRole::Opening));
    assert(list[1] == (s.closing_balance, BalanceRole::Closing));
    assert(code_of(x.bal@[0]) == Some(opening));
    assert(code_of(x.bal@[1]) == Some(closing));
    lemma_balance_index_is(x.bal@, opening, 0, 0);
    lemma_balance_index_is(x.bal@, closing, 0, 1);
    match s.closing_available {
        Some(b) => {
            assert(list[2] == (b, BalanceRole::ClosingAvailable));
            assert(code_of(x.bal@[2]) == Some(available));
            lemma_balance_index_is(x.bal@, available, 0, 2);
        },
        None => {
            assert forall|j: int| 0 <= j < x.bal@.len() implies code_of(#[trigger] x.bal@[j])
                != Some(available) by {
                if j >= 2 {
                    assert(list[j] == (s.forward_available[j - 2], BalanceRole::ForwardAvailable));
                }
                assert(code_of(x.bal@[j]) == Some(role_code(list[j].1)));
            }
            lemma_balance_index_none(x.bal@, available, 0);
        },
    }
}

/// The statement that the node of a statement comes back as.
pub open spec fn statement_back(s: StatementView, x: Statement) -> StatementView {
    StatementView {
        reference: s.reference,
        statement_id: s.statement_id,
        account: s.account,
        statement_number: crate::converter::to_mt940::number_of(x),
        opening_balance: s.opening_balance,
        transactions: transactions_back(s.transactions, s.closing_balance.date),
        closing_balance: s.closing_balance,
        closing_available: s.closing_available,
        forward_available: s.forward_available,
        extras: Seq::empty(),
    }
}

/// The node of a statement with well formed balances converts back, and
/// into `statement_back`.
pub proof fn lemma_statement_back(s: StatementView, x: Statement)
    requires
        s.has_well_formed_balances(),
        is_statement_node(x, s),
    ensures
        statement_of(s.reference, x) == Ok::<StatementView, Fault>(statement_back(s, x)),
{
    lemma_found_balances(s, x);
    lemma_forwards_back(s, x, x.bal@.len() as int);
    assert(s.forward_available.subrange(0, s.forward_available.len() as int)
        =~= s.forward_available);
    lemma_entries_back(x.ntry@, s.transactions, s.closing_balance.date, x.ntry@.len() as int);
    let back = transactions_back(s.transactions, s.closing_balance.date);
    assert(back.subrange(0, back.len() as int) =~= back);
    assert(crate::converter::to_mt940::account_of(x) == s.account);
    assert(opt_text(x.id) == s.statement_id);
}

/// A statement text converted into a document and back keeps what both
/// formats carry.
///
/// Let `s` be a statement whose balances are well formed, as those of every
/// decoded statement are, and `c` the document that `s` converts into. Then
/// `c` converts into exactly one statement text. It has the reference, the
/// statement id and the account of `s`, and the same opening, closing,
/// closing available and forward available balances: sign, date, currency
/// and amount. It has one transaction for each transaction of `s`, in order,
/// with the amount of the first written with two decimals and with its mark
/// without reversal; what else a transaction held is replaced by the closing
/// date and the placeholders. The statement number is not kept.
pub proof fn law_text_document_text(s: StatementView, c: Camt053)
    requires
        s.has_well_formed_balances(),
        is_camt_of(c, s),
    ensures
        mt940s_of(c) is Ok,
        (mt940s_of(c)->Ok_0).len() == 1,
        ({
            let back = (mt940s_of(c)->Ok_0)[0].statement;
            &&& back.reference == s.reference
            &&& back.statement_id == s.statement_id
            &&& back.account == s.account
            &&& back.opening_balance == s.opening_balance
            &&& back.closing_balance == s.closing_balance
            &&& back.closing_available == s.closing_available
            &&& back.forward_available == s.forward_available
            &&& back.transactions.len() == s.transactions.len()
            &&& forall|i: int|
                0 <= i < s.transactions.len() ==> #[trigger] back.transactions[i]
                    == placeholder_transaction(
                    s.closing_balance.date,
                    plain_mark(s.transactions[i].mark),
                    with_commas(normalized_amount(s.transactions[i].amount)),
                )
        }),
{
    let x = c.bk_to_cstmr_stmt.stmts@[0];
    let msg = text_or_empty(c.bk_to_cstmr_stmt.grp_hdr.msg_id);
    assert(msg == s.reference);
    lemma_statement_back(s, x);
    let back = statement_back(s, x);
    assert(statements_of(c, 0) == Ok::<Seq<Mt940View>, Fault>(Seq::empty()));
    assert(statements_of(c, 1) == Ok::<Seq<Mt940View>, Fault>(
        Seq::<Mt940View>::empty().push(in_empty_envelope(back)),
    ));
}

/// An amount is plain: one or more digits without a needless leading zero,
/// a comma, and exactly two digits.
pub open spec fn is_plain_amount(a: Seq<char>) -> bool {
    &&& a.len() >= 4
    &&& a[a.len() - 3] == ','
    &&& forall|i: int| 0 <= i < a.len() && i != a.len() - 3 ==> is_digit(#[trigger] a[i])
    &&& (a.len() > 4 ==> a[0] != '0')
}

/// A plain amount written with two decimals is itself: a transaction with
/// such an amount keeps it, character by character, through both
/// conversions.
pub proof fn law_plain_amount_is_kept(a: Seq<char>)
    requires
        is_plain_amount(a),
    ensures
        is_amount(a),
        with_commas(normalized_amount(a)) == a,
{
    let k = a.len() - 3;
    assert(is_digit(a[0]));
    assert forall|i: int| 0 <= i < a.len() implies is_digit(#[trigger] a[i]) || a[i] == ',' by {}
    assert forall|i: int, j: int| 0 <= i < j < a.len() implies !(#[trigger] a[i] == ','
        && #[trigger] a[j] == ',') by {
        if i != k {
            assert(is_digit(a[i]));
        }
        if j != k {
            assert(is_digit(a[j]));
        }
    }
    assert forall|i: int| 0 <= i < k implies a[i] != ',' by {
        assert(is_digit(a[i]));
    }
    crate::text::lemma_index_from_is(a, ',', 0, k);
    let ip = integer_part(a);
    let f = fraction_part(a);
    assert(ip =~= a.subrange(0, k));
    assert(f =~= a.subrange(k + 1, a.len() as int));
    assert(f.len() == 2);
    assert(two_places(f) =~= f);
    let h = hundredths(a);
    assert(h == ip + f);
    assert(h.len() == a.len() - 1);
    assert(h[0] == a[0]);
    assert(strip_zeros(h, 3) == h);
    let n = normalized_amount(a);
    assert(n.len() == a.len());
    assert forall|i: int| 0 <= i < a.len() implies with_commas(n)[i] == a[i] by {
        if i < k {
            assert(n[i] == h[i]);
            assert(is_digit(a[i]));
        } else if i > k {
            assert(n[i] == h[i - 1]);
            assert(h[i - 1] == f[i - 1 - k]);
            assert(is_digit(a[i]));
        } else {
            assert(n[i] == '.');
        }
    }
    assert(with_commas(n) =~= a);
}

/// A balance that is read back as it is written converts.
pub proof fn lemma_reread_balance_converts(b: BalanceView, role: BalanceRole)
    requires
        crate::mt940::rereadable::is_reread_balance(b, role),
    ensures
        balance_fields(b, role) is Ok,
        crate::mt940::reader::is_balance_of_role(b, role),
{
    crate::mt940::balance::lemma_decoded_balance_is_well_formed(b.raw, role);
    law_balance_round_trip(b);
}

/// A statement that is read back as it is written has well formed balances
/// in their roles.
pub proof fn lemma_rereadable_has_well_formed_balances(s: StatementView)
    requires
        s.is_rereadable(),
    ensures
        s.has_well_formed_balances(),
{
    lemma_reread_balance_converts(s.opening_balance, BalanceRole::Opening);
    lemma_reread_balance_converts(s.closing_balance, BalanceRole::Closing);
    match s.closing_available {
        Some(b) => {
            lemma_reread_balance_converts(b, BalanceRole::ClosingAvailable);
        },
        None => {},
    }
    assert forall|i: int|
        0 <= i < s.forward_available.len() implies crate::mt940::reader::is_balance_of_role(
        #[trigger] s.forward_available[i],
        BalanceRole::ForwardAvailable,
    ) by {
        assert(crate::mt940::rereadable::is_reread_balance(
            s.forward_available[i],
            BalanceRole::ForwardAvailable,
        ));
        lemma_reread_balance_converts(s.forward_available[i], BalanceRole::ForwardAvailable);
    }
}

/// None of the first `n` balances of a statement with well formed balances
/// fails.
pub proof fn lemma_no_balance_fault(s: StatementView, n: int)
    requires
        s.has_well_formed_balances(),
        0 <= n <= balance_list(s).len(),
    ensures
        crate::converter::to_camt053::first_balance_fault(balance_list(s), n) is None,
    decreases n,
{
    if n > 0 {
        lemma_no_balance_fault(s, n - 1);
        let list = balance_list(s);
        let base: int = if s.closing_available is Some { 3 } else { 2 };
        if n - 1 >= base {
            assert(list[n - 1] == (
                s.forward_available[n - 1 - base],
                BalanceRole::ForwardAvailable,
            ));
        }
        assert(crate::mt940::reader::is_balance_of_role(list[n - 1].0, list[n - 1].1));
        law_balance_round_trip(list[n - 1].0);
    }
}

/// None of the first `n` transactions that are read back as they are written
/// fails.
pub proof fn lemma_no_entry_fault(ts: Seq<TransactionView>, n: int)
    requires
        crate::mt940::rereadable::all_reread_transactions(ts),
        0 <= n <= ts.len(),
    ensures
        crate::converter::to_camt053::first_entry_fault(ts, n) is None,
    decreases n,
{
    if n > 0 {
        lemma_no_entry_fault(ts, n - 1);
        assert(crate::mt940::rereadable::is_reread_transaction(ts[n - 1]));
    }
}

/// The statement of every statement text that decodes converts into a
/// document: the conversion from text to document fails only where the
/// decoder fails.
pub proof fn law_decoded_text_converts(text: Seq<char>)
    requires
        crate::mt940::reader::decode_mt940(text) is Ok,
    ensures
        crate::converter::to_camt053::conversion_fault(
            (crate::mt940::reader::decode_mt940(text)->Ok_0).statement,
        ) is None,
        (crate::mt940::reader::decode_mt940(text)->Ok_0).statement.has_well_formed_balances(),
{
    let s = (crate::mt940::reader::decode_mt940(text)->Ok_0).statement;
    crate::mt940::round_trip::lemma_decoded_text_is_rereadable(text);
    lemma_rereadable_has_well_formed_balances(s);
    lemma_no_balance_fault(s, balance_list(s).len() as int);
    lemma_no_entry_fault(s.transactions, s.transactions.len() as int);
}

/// A statement text converted into a document and back keeps what both
/// formats carry, for every text that decodes: what `law_text_document_text`
/// says holds of the statement of the text and of the document that the
/// statement converts into.
pub proof fn law_round_trip_of_decoded_text(text: Seq<char>, c: Camt053)
    requires
        crate::mt940::reader::decode_mt940(text) is Ok,
        is_camt_of(c, (crate::mt940::reader::decode_mt940(text)->Ok_0).statement),
    ensures
        mt940s_of(c) is Ok,
        (mt940s_of(c)->Ok_0).len() == 1,
        ({
            let s = (crate::mt940::reader::decode_mt940(text)->Ok_0).statement;
            let back = (mt940s_of(c)->Ok_0)[0].statement;
            &&& back.reference == s.reference
            &&& back.account == s.account
            &&& back.opening_balance == s.opening_balance
            &&& back.closing_balance == s.closing_balance
            &&& back.transactions.len() == s.transactions.len()
            &&& forall|i: int|
                0 <= i < s.transactions.len() ==> (#[trigger] back.transactions[i]).amount
                    == with_commas(normalized_amount(s.transactions[i].amount))
                    && back.transactions[i].mark == plain_mark(s.transactions[i].mark)
        }),
{
    let s = (crate::mt940::reader::decode_mt940(text)->Ok_0).statement;
    law_decoded_text_converts(text);
    law_text_document_text(s, c);
}

/// A document that converts gives one statement text for each of its
/// statement nodes, in their order: the text of a node is what the node
/// converts into, in an envelope with empty headers, and its reference is
/// the message id of the document, the same for all of them.
pub proof fn law_one_text_for_each_statement(c: Camt053, n: int)
    requires
        0 <= n <= c.bk_to_cstmr_stmt.stmts@.len(),
        statements_of(c, n) is Ok,
    ensures
        (statements_of(c, n)->Ok_0).len() == n,
        forall|i: int|
            0 <= i < n ==> statement_of(
                text_or_empty(c.bk_to_cstmr_stmt.grp_hdr.msg_id),
                c.bk_to_cstmr_stmt.stmts@[i],
            ) is Ok && #[trigger] (statements_of(c, n)->Ok_0)[i] == in_empty_envelope(
                statement_of(
                    text_or_empty(c.bk_to_cstmr_stmt.grp_hdr.msg_id),
                    c.bk_to_cstmr_stmt.stmts@[i],
                )->Ok_0,
            ) && (statements_of(c, n)->Ok_0)[i].statement.reference == text_or_empty(
                c.bk_to_cstmr_stmt.grp_hdr.msg_id,
            ),
    decreases n,
{
    if n > 0 {
        law_one_text_for_each_statement(c, n - 1);
        let before = statements_of(c, n - 1)->Ok_0;
        let all = statements_of(c, n)->Ok_0;
        assert forall|i: int| 0 <= i < n - 1 implies all[i] == before[i] by {}
    }
}

/// The sequence number of a statement number of digits is those digits
/// without their leading zeros: it writes the same number, and it starts with
/// a zero only where it is that one digit.
pub proof fn law_sequence_number_of_digits(d: Seq<char>)
    requires
        is_number_part(d),
    ensures
        sequence_text(d) == strip_zeros(d, 1),
        is_number_part(sequence_text(d)),
        crate::decimal::digits_value(sequence_text(d)) == crate::decimal::digits_value(d),
        sequence_text(d).len() > 1 ==> sequence_text(d)[0] != '0',
{
    assert forall|k: int| 0 <= k < d.len() implies d[k] != '/' by {
        assert(is_digit(d[k]));
    }
    crate::text::lemma_index_from_is(d, '/', 0, d.len() as int);
    lemma_strip_zeros(d, 1);
    crate::decimal::lemma_strip_zeros_value(d, 1);
    crate::decimal::lemma_strip_zeros_first(d, 1);
}

/// The sequence number of a statement number of two parts of digits with a
/// slash between them is the two parts, each without its leading zeros, with
/// a slash between them: `00001/001` is carried as `1/1`.
pub proof fn law_sequence_number_of_two_parts(first: Seq<char>, second: Seq<char>)
    requires
        is_number_part(first),
        is_number_part(second),
    ensures
        sequence_text(first + seq!['/'] + second) == sequence_text(first) + seq!['/']
            + sequence_text(second),
{
    let number = first + seq!['/'] + second;
    let k = first.len() as int;
    assert forall|i: int| 0 <= i < k implies number[i] != '/' by {
        assert(number[i] == first[i]);
        assert(is_digit(first[i]));
    }
    assert(number[k] == '/');
    crate::text::lemma_index_from_is(number, '/', 0, k);
    assert(number.subrange(0, k) =~= first);
    assert(number.subrange(k + 1, number.len() as int) =~= second);
    law_sequence_number_of_digits(first);
    law_sequence_number_of_digits(second);
}

} // verus!
