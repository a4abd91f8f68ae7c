//! From a statement text to a nested document with one statement.

use vstd::prelude::*;
use vstd::slice::slice_subrange;
use crate::amount::{
    is_amount, normalize_amount, normalized_amount, strip_leading_zeros, strip_zeros,
};
use crate::camt053::format::{
    Account, AccountId, Amount, Balance, BalanceType, BankToCustomerStatement, Camt053,
    CodeOrProprietary, DateAndDateTimeChoice, Entry, EntryDetails, GroupHeader,
    RemittanceInformation, Statement, TransactionDetails,
};
use crate::dates::{push_iso, render_iso};
use crate::errors::{role_code, BalanceRole, Fault, ParserError};
use crate::mt940::balance::{
    decode_balance, decode_balance_chars, lemma_decoded_balance_is_well_formed,
};
use crate::mt940::format::{
    opt_text, transaction_views, BalanceView, DebitCredit, EntryMark, Mt940, StatementBalance,
    StatementModel, StatementView, Transaction, TransactionView,
};
use crate::text::{all_digits, chars_of, find_char, index_from, push_all, range_all_digits, string_of};

verus! {

/// The currency that an account and its entries are given, as the statement
/// text names none for them.
pub open spec fn default_currency() -> Seq<char> {
    seq!['E', 'U', 'R']
}

/// The indicator of a credit.
pub open spec fn credit_code() -> Seq<char> {
    seq!['C', 'R', 'D', 'T']
}

/// The indicator of a debit.
pub open spec fn debit_code() -> Seq<char> {
    seq!['D', 'B', 'I', 'T']
}

/// The indicator of a balance sign.
pub open spec fn sign_indicator(sign: DebitCredit) -> Seq<char> {
    match sign {
        DebitCredit::Credit => credit_code(),
        DebitCredit::Debit => debit_code(),
    }
}

/// The indicator of a statement line: a debit is a debit, and every other
/// mark a credit.
pub open spec fn mark_indicator(mark: EntryMark) -> Seq<char> {
    match mark {
        EntryMark::Debit => debit_code(),
        _ => credit_code(),
    }
}

/// A text with each line feed turned into a space.
pub open spec fn single_line(s: Seq<char>) -> Seq<char> {
    Seq::new(s.len(), |i: int| if s[i] == '\n' { ' ' } else { s[i] })
}

/// `d` is a part of a statement number: one digit or more.
pub open spec fn is_number_part(d: Seq<char>) -> bool {
    d.len() > 0 && all_digits(d)
}

/// The sequence number that the nested document carries for a statement
/// number. A statement number that is digits, or digits, a slash and digits,
/// is written with each part as the number it denotes: without leading
/// zeros, and `0` for zeros alone. Any other text is carried as it stands.
pub open spec fn sequence_text(number: Seq<char>) -> Seq<char> {
    let k = index_from(number, '/', 0);
    if k >= number.len() {
        if is_number_part(number) {
            strip_zeros(number, 1)
        } else {
            number
        }
    } else {
        let first = number.subrange(0, k);
        let second = number.subrange(k + 1, number.len() as int);
        if is_number_part(first) && is_number_part(second) {
            strip_zeros(first, 1) + seq!['/'] + strip_zeros(second, 1)
        } else {
            number
        }
    }
}

/// The texts that a balance node of the nested document carries.
pub struct BalanceFields {
    pub code: Seq<char>,
    pub currency: Seq<char>,
    pub value: Seq<char>,
    pub indicator: Seq<char>,
    pub date: Seq<char>,
}

/// The texts that an entry node of the nested document carries.
pub struct EntryFields {
    pub value: Seq<char>,
    pub indicator: Seq<char>,
    pub remittance: Option<Seq<char>>,
}

/// What a balance becomes in the nested document. The balance is written by
/// the wire grammar from its fields and decoded again; sign, date, currency
/// and amount of what was decoded fill the node. A balance whose date does
/// not exist fails with its raw text, one whose written form does not decode
/// with that form.
pub open spec fn balance_fields(b: BalanceView, role: BalanceRole) -> Result<BalanceFields, Fault> {
    if !b.date.is_valid() {
        Err(Fault::InvalidBalance(b.raw))
    } else {
        match decode_balance(b.render(), role) {
            Err(f) => Err(f),
            Ok(d) => Ok(
                BalanceFields {
                    code: role_code(role),
                    currency: d.currency_text(),
                    value: d.amount,
                    indicator: sign_indicator(d.sign),
                    date: render_iso(d.date),
                },
            ),
        }
    }
}

/// What a transaction becomes in the nested document: its amount with two
/// decimals, the indicator of its mark, and its narrative on one line. A
/// transaction whose amount is no wire amount fails with its raw text.
pub open spec fn entry_fields(t: TransactionView) -> Result<EntryFields, Fault> {
    if !is_amount(t.amount) {
        Err(Fault::InvalidTransaction(t.raw))
    } else {
        Ok(
            EntryFields {
                value: normalized_amount(t.amount),
                indicator: mark_indicator(t.mark),
                remittance: match t.narrative {
                    Some(n) => Some(single_line(n)),
                    None => None,
                },
            },
        )
    }
}

/// The node holds this currency and this value.
pub open spec fn is_amount_node(a: Amount, currency: Seq<char>, value: Seq<char>) -> bool {
    opt_text(a.currency) == Some(currency) && opt_text(a.value) == Some(value)
}

/// The node holds exactly these texts: the role code, the amount, the
/// indicator and the date, and nothing else.
pub open spec fn is_balance_node(x: Balance, f: BalanceFields) -> bool {
    &&& x.tp matches Some(tp) && tp.cd_or_prtry matches Some(cp) && opt_text(cp.cd) == Some(f.code)
        && cp.prtry is None
    &&& x.amt matches Some(a) && is_amount_node(a, f.currency, f.value)
    &&& opt_text(x.cdt_dbt_ind) == Some(f.indicator)
    &&& x.dt matches Some(d) && opt_text(d.dt) == Some(f.date) && d.dt_tm is None
}

/// The details hold the amount of the entry, its remittance text as one
/// line where there is one, and nothing else.
pub open spec fn is_details_node(d: TransactionDetails, f: EntryFields) -> bool {
    &&& d.refs is None
    &&& d.amt matches Some(a) && is_amount_node(a, default_currency(), f.value)
    &&& d.rltd_pties is None
    &&& match f.remittance {
        Some(text) => d.rmt_inf matches Some(r) && r.ustrd@.len() == 1 && r.ustrd@[0]@ == text,
        None => d.rmt_inf is None,
    }
}

/// The entry holds the amount, the indicator and one transaction under one
/// detail, and nothing else.
pub open spec fn is_entry_node(e: Entry, f: EntryFields) -> bool {
    &&& e.amt matches Some(a) && is_amount_node(a, default_currency(), f.value)
    &&& opt_text(e.cdt_dbt_ind) == Some(f.indicator)
    &&& e.sts is None
    &&& e.bookg_dt is None
    &&& e.val_dt is None
    &&& e.bk_tx_cd is None
    &&& e.ntry_dtls@.len() == 1
    &&& e.ntry_dtls@[0].tx_dtls@.len() == 1
    &&& is_details_node(e.ntry_dtls@[0].tx_dtls@[0], f)
}

/// The node at `i` is the node of the balance at `i`.
pub open spec fn balance_node_at(
    bal: Seq<Balance>,
    list: Seq<(BalanceView, BalanceRole)>,
    i: int,
) -> bool {
    balance_fields(list[i].0, list[i].1) is Ok && is_balance_node(
        bal[i],
        balance_fields(list[i].0, list[i].1)->Ok_0,
    )
}

/// The entry at `i` is the entry of the transaction at `i`.
pub open spec fn entry_node_at(ntry: Seq<Entry>, ts: Seq<TransactionView>, i: int) -> bool {
    entry_fields(ts[i]) is Ok && is_entry_node(ntry[i], entry_fields(ts[i])->Ok_0)
}

/// The balances of a statement with the roles under which the nested
/// document lists them: opening, closing, closing available, then each
/// forward available balance.
pub open spec fn balance_list(s: StatementView) -> Seq<(BalanceView, BalanceRole)> {
    seq![(s.opening_balance, BalanceRole::Opening), (s.closing_balance, BalanceRole::Closing)] + (
    match s.closing_available {
        Some(b) => seq![(b, BalanceRole::ClosingAvailable)],
        None => Seq::empty(),
    }) + Seq::new(
        s.forward_available.len(),
        |i: int| (s.forward_available[i], BalanceRole::ForwardAvailable),
    )
}

/// The failure of the first of the first `n` balances that has one.
pub open spec fn first_balance_fault(list: Seq<(BalanceView, BalanceRole)>, n: int) -> Option<Fault>
    decreases n,
{
    if n <= 0 {
        None
    } else {
        match first_balance_fault(list, n - 1) {
            Some(f) => Some(f),
            None => match balance_fields(list[n - 1].0, list[n - 1].1) {
                Err(f) => Some(f),
                Ok(_) => None,
            },
        }
    }
}

/// The failure of the first of the first `n` transactions that has one.
pub open spec fn first_entry_fault(ts: Seq<TransactionView>, n: int) -> Option<Fault>
    decreases n,
{
    if n <= 0 {
        None
    } else {
        match first_entry_fault(ts, n - 1) {
            Some(f) => Some(f),
            None => match entry_fields(ts[n - 1]) {
                Err(f) => Some(f),
                Ok(_) => None,
            },
        }
    }
}

/// The failure that stops the conversion of a statement: that of its first
/// failing balance, or else that of its first failing transaction.
pub open spec fn conversion_fault(s: StatementView) -> Option<Fault> {
    match first_balance_fault(balance_list(s), balance_list(s).len() as int) {
        Some(f) => Some(f),
        None => first_entry_fault(s.transactions, s.transactions.len() as int),
    }
}

/// The account node holds the account as IBAN and the default currency.
pub open spec fn is_account_node(a: Account, account: Seq<char>) -> bool {
    &&& a.id matches Some(id) && opt_text(id.iban) == Some(account) && id.other is None
    &&& opt_text(a.ccy) == Some(default_currency())
    &&& a.name is None
}

/// The statement node holds what the statement holds: its id, its number as
/// `sequence_text` writes it, its account as IBAN, a node for each balance in
/// the order of `balance_list`, an entry for each transaction in order, and
/// nothing else.
pub open spec fn is_statement_node(x: Statement, s: StatementView) -> bool {
    &&& opt_text(x.id) == s.statement_id
    &&& opt_text(x.elctrnc_seq_nb) == Some(sequence_text(s.statement_number))
    &&& x.lgl_seq_nb is None
    &&& x.cre_dt_tm is None
    &&& x.fr_to_dt is None
    &&& x.acct matches Some(a) && is_account_node(a, s.account)
    &&& x.bal@.len() == balance_list(s).len()
    &&& forall|i: int|
        0 <= i < x.bal@.len() ==> #[trigger] balance_node_at(x.bal@, balance_list(s), i)
    &&& x.ntry@.len() == s.transactions.len()
    &&& forall|i: int|
        0 <= i < x.ntry@.len() ==> #[trigger] entry_node_at(x.ntry@, s.transactions, i)
}

/// The document is the one that the statement converts into: the reference
/// as message id, and exactly one statement node.
pub open spec fn is_camt_of(c: Camt053, s: StatementView) -> bool {
    &&& opt_text(c.bk_to_cstmr_stmt.grp_hdr.msg_id) == Some(s.reference)
    &&& c.bk_to_cstmr_stmt.grp_hdr.cre_dt_tm is None
    &&& c.bk_to_cstmr_stmt.stmts@.len() == 1
    &&& is_statement_node(c.bk_to_cstmr_stmt.stmts@[0], s)
}

/// An amount node.
fn amount_node(currency: &[char], value: &[char]) -> (r: Amount)
    ensures
        is_amount_node(r, currency@, value@),
{
    Amount { currency: Some(string_of(currency)), value: Some(string_of(value)) }
}

/// Converts one balance into a node of the nested document under the given
/// role: the balance is written by the wire grammar and decoded again, and
/// the node carries the role code, the currency, the amount as written, the
/// indicator `CRDT` or `DBIT`, and the date as `YYYY-MM-DD`.
pub fn parse_balance(b: &StatementBalance, role: BalanceRole) -> (r: Result<Balance, ParserError>)
    ensures
        match r {
            Ok(x) => balance_fields(b@, role) is Ok && is_balance_node(
                x,
                balance_fields(b@, role)->Ok_0,
            ),
            Err(e) => balance_fields(b@, role) == Err::<BalanceFields, Fault>(e@),
        },
{
    let line: Vec<char> = match b.wire_chars() {
        Some(l) => l,
        None => {
            return Err(ParserError::InvalidBalance(b.raw.clone()));
        },
    };
    let d: StatementBalance = match decode_balance_chars(line.as_slice(), role) {
        Ok(d) => d,
        Err(e) => {
            return Err(e);
        },
    };
    proof {
        lemma_decoded_balance_is_well_formed(b@.render(), role);
    }
    let indicator: Vec<char> = match d.sign {
        DebitCredit::Credit => vec!['C', 'R', 'D', 'T'],
        DebitCredit::Debit => vec!['D', 'B', 'I', 'T'],
    };
    assert(indicator@ =~= sign_indicator(d.sign));
    let mut date: Vec<char> = Vec::new();
    push_iso(&mut date, d.date);
    assert(date@ =~= render_iso(d.date));
    let currency: Vec<char> = match &d.currency {
        Some(c) => chars_of(c.as_str()),
        None => Vec::new(),
    };
    let value = chars_of(d.amount.as_str());
    let code = role.code();
    Ok(
        Balance {
            tp: Some(
                BalanceType {
                    cd_or_prtry: Some(
                        CodeOrProprietary { cd: Some(string_of(code.as_slice())), prtry: None },
                    ),
                },
            ),
            amt: Some(amount_node(currency.as_slice(), value.as_slice())),
            cdt_dbt_ind: Some(string_of(indicator.as_slice())),
            dt: Some(DateAndDateTimeChoice { dt: Some(string_of(date.as_slice())), dt_tm: None }),
        },
    )
}

/// Copies a text with each line feed turned into a space.
pub fn flatten_lines(s: &[char]) -> (r: Vec<char>)
    ensures
        r@ == single_line(s@),
{
    let n: usize = s.len();
    let mut out: Vec<char> = Vec::new();
    let mut i: usize = 0;
    while i < n
        invariant
            n == s@.len(),
            i <= n,
            out@.len() == i,
            forall|k: int| 0 <= k < i ==> out@[k] == single_line(s@)[k],
        decreases n - i,
    {
        let c: char = s[i];
        out.push(if c == '\n' { ' ' } else { c });
        i += 1;
    }
    proof {
        assert(out@ =~= single_line(s@));
    }
    out
}

/// Converts one transaction into an entry of the nested document: the amount
/// with two decimals in the default currency, the indicator of the mark, and
/// one transaction detail with the same amount and the narrative on one
/// line. Type identifier, reference, supplementary text and dates are not
/// carried over.
pub fn parse_entry(t: &Transaction) -> (r: Result<Entry, ParserError>)
    ensures
        match r {
            Ok(e) => entry_fields(t@) is Ok && is_entry_node(e, entry_fields(t@)->Ok_0),
            Err(e) => entry_fields(t@) == Err::<EntryFields, Fault>(e@),
        },
{
    let amount = chars_of(t.amount.as_str());
    if !crate::amount::check_amount(amount.as_slice(), 0, amount.len()) {
        assert(amount@.subrange(0, amount@.len() as int) =~= amount@);
        return Err(ParserError::InvalidTransaction(t.raw.clone()));
    }
    assert(amount@.subrange(0, amount@.len() as int) =~= amount@);
    let value: Vec<char> = normalize_amount(amount.as_slice());
    let currency: Vec<char> = vec!['E', 'U', 'R'];
    assert(currency@ =~= default_currency());
    let indicator: Vec<char> = match t.mark {
        EntryMark::Debit => vec!['D', 'B', 'I', 'T'],
        _ => vec!['C', 'R', 'D', 'T'],
    };
    assert(indicator@ =~= mark_indicator(t.mark));
    let rmt_inf: Option<RemittanceInformation> = match &t.narrative {
        Some(n) => {
            let chars = chars_of(n.as_str());
            let flat = flatten_lines(chars.as_slice());
            let text: String = string_of(flat.as_slice());
            let ustrd: Vec<String> = vec![text];
            Some(RemittanceInformation { ustrd })
        },
        None => None,
    };
    let details = TransactionDetails {
        refs: None,
        amt: Some(amount_node(currency.as_slice(), value.as_slice())),
        rltd_pties: None,
        rmt_inf,
    };
    let tx_dtls: Vec<TransactionDetails> = vec![details];
    let ntry_dtls: Vec<EntryDetails> = vec![EntryDetails { tx_dtls }];
    Ok(
        Entry {
            amt: Some(amount_node(currency.as_slice(), value.as_slice())),
            cdt_dbt_ind: Some(string_of(indicator.as_slice())),
            sts: None,
            bookg_dt: None,
            val_dt: None,
            bk_tx_cd: None,
            ntry_dtls,
        },
    )
}

/// The first `k` balances of the list have their nodes, and none of them
/// fails.
pub open spec fn balances_done(
    bal: Seq<Balance>,
    list: Seq<(BalanceView, BalanceRole)>,
    k: int,
) -> bool {
    &&& bal.len() == k
    &&& 0 <= k <= list.len()
    &&& first_balance_fault(list, k) is None
    &&& forall|i: int| 0 <= i < k ==> #[trigger] balance_node_at(bal, list, i)
}

/// The first `k` transactions have their entries, and none of them fails.
pub open spec fn entries_done(ntry: Seq<Entry>, ts: Seq<TransactionView>, k: int) -> bool {
    &&& ntry.len() == k
    &&& 0 <= k <= ts.len()
    &&& first_entry_fault(ts, k) is None
    &&& forall|i: int| 0 <= i < k ==> #[trigger] entry_node_at(ntry, ts, i)
}

/// A failure among the first `k` balances is the failure among the first
/// `n`, for `n` from `k` on.
pub proof fn lemma_balance_fault_stays(list: Seq<(BalanceView, BalanceRole)>, k: int, n: int)
    requires
        k <= n,
        first_balance_fault(list, k) is Some,
    ensures
        first_balance_fault(list, n) == first_balance_fault(list, k),
    decreases n - k,
{
    if k < n {
        lemma_balance_fault_stays(list, k, n - 1);
    }
}

/// A failure among the first `k` transactions is the failure among the first
/// `n`, for `n` from `k` on.
pub proof fn lemma_entry_fault_stays(ts: Seq<TransactionView>, k: int, n: int)
    requires
        k <= n,
        first_entry_fault(ts, k) is Some,
    ensures
        first_entry_fault(ts, n) == first_entry_fault(ts, k),
    decreases n - k,
{
    if k < n {
        lemma_entry_fault_stays(ts, k, n - 1);
    }
}

/// One more balance with its node is one more balance done.
pub proof fn lemma_balance_step(
    bal: Seq<Balance>,
    x: Balance,
    list: Seq<(BalanceView, BalanceRole)>,
    k: int,
)
    requires
        balances_done(bal, list, k),
        k < list.len(),
        balance_fields(list[k].0, list[k].1) is Ok,
        is_balance_node(x, balance_fields(list[k].0, list[k].1)->Ok_0),
    ensures
        balances_done(bal.push(x), list, k + 1),
{
    let next = bal.push(x);
    assert forall|i: int| 0 <= i < k + 1 implies #[trigger] balance_node_at(next, list, i) by {
        if i < k {
            assert(balance_node_at(bal, list, i));
            assert(next[i] == bal[i]);
        }
    }
}

/// One more transaction with its entry is one more transaction done.
pub proof fn lemma_entry_step(ntry: Seq<Entry>, e: Entry, ts: Seq<TransactionView>, k: int)
    requires
        entries_done(ntry, ts, k),
        k < ts.len(),
        entry_fields(ts[k]) is Ok,
        is_entry_node(e, entry_fields(ts[k])->Ok_0),
    ensures
        entries_done(ntry.push(e), ts, k + 1),
{
    let next = ntry.push(e);
    assert forall|i: int| 0 <= i < k + 1 implies #[trigger] entry_node_at(next, ts, i) by {
        if i < k {
            assert(entry_node_at(ntry, ts, i));
            assert(next[i] == ntry[i]);
        }
    }
}

/// Converts the next balance of the list and puts its node behind the
/// others.
fn convert_next(
    bal: &mut Vec<Balance>,
    b: &StatementBalance,
    role: BalanceRole,
    Ghost(list): Ghost<Seq<(BalanceView, BalanceRole)>>,
) -> (r: Result<(), ParserError>)
    requires
        balances_done(old(bal)@, list, old(bal)@.len() as int),
        old(bal)@.len() < list.len(),
        list[old(bal)@.len() as int] == (b@, role),
    ensures
        match r {
            Ok(_) => balances_done(final(bal)@, list, old(bal)@.len() as int + 1),
            Err(e) => first_balance_fault(list, list.len() as int) == Some(e@),
        },
{
    let ghost k = bal@.len() as int;
    match parse_balance(b, role) {
        Ok(x) => {
            proof {
                lemma_balance_step(bal@, x, list, k);
            }
            bal.push(x);
            Ok(())
        },
        Err(e) => {
            proof {
                assert(first_balance_fault(list, k + 1) == Some(e@));
                lemma_balance_fault_stays(list, k + 1, list.len() as int);
            }
            Err(e)
        },
    }
}

/// Converts the balances of a statement into nodes, in the order of
/// `balance_list`.
fn convert_balances(s: &StatementModel) -> (r: Result<Vec<Balance>, ParserError>)
    ensures
        match r {
            Ok(bal) => balances_done(bal@, balance_list(s@), balance_list(s@).len() as int),
            Err(e) => first_balance_fault(balance_list(s@), balance_list(s@).len() as int) == Some(
                e@,
            ),
        },
{
    let ghost list = balance_list(s@);
    let mut bal: Vec<Balance> = Vec::new();
    assert(balances_done(bal@, list, 0));
    assert(list[0] == (s@.opening_balance, BalanceRole::Opening));
    assert(list[1] == (s@.closing_balance, BalanceRole::Closing));
    match convert_next(&mut bal, &s.opening_balance, BalanceRole::Opening, Ghost(list)) {
        Ok(_) => {},
        Err(e) => {
            return Err(e);
        },
    }
    match convert_next(&mut bal, &s.closing_balance, BalanceRole::Closing, Ghost(list)) {
        Ok(_) => {},
        Err(e) => {
            return Err(e);
        },
    }
    match &s.closing_available {
        Some(b) => {
            assert(list[2] == (b@, BalanceRole::ClosingAvailable));
            match convert_next(&mut bal, b, BalanceRole::ClosingAvailable, Ghost(list)) {
                Ok(_) => {},
                Err(e) => {
                    return Err(e);
                },
            }
        },
        None => {},
    }
    let n: usize = s.forward_available.len();
    let ghost base = bal@.len() as int;
    let mut i: usize = 0;
    while i < n
        invariant
            n == s.forward_available@.len(),
            list == balance_list(s@),
            list.len() == base + n,
            base == if s@.closing_available is Some { 3int } else { 2int },
            i <= n,
            balances_done(bal@, list, base + i),
        decreases n - i,
    {
        let b: &StatementBalance = &s.forward_available[i];
        assert(list[base + i] == (b@, BalanceRole::ForwardAvailable));
        match convert_next(&mut bal, b, BalanceRole::ForwardAvailable, Ghost(list)) {
            Ok(_) => {},
            Err(e) => {
                return Err(e);
            },
        }
        i += 1;
    }
    Ok(bal)
}

/// Converts the transactions of a statement into entries, in order.
fn convert_entries(ts: &Vec<Transaction>) -> (r: Result<Vec<Entry>, ParserError>)
    ensures
        match r {
            Ok(ntry) => entries_done(ntry@, transaction_views(ts@), ts@.len() as int),
            Err(e) => first_entry_fault(transaction_views(ts@), ts@.len() as int) == Some(e@),
        },
{
    let ghost all = transaction_views(ts@);
    let n: usize = ts.len();
    let mut ntry: Vec<Entry> = Vec::new();
    let mut i: usize = 0;
    while i < n
        invariant
            n == ts@.len(),
            all == transaction_views(ts@),
            i <= n,
            entries_done(ntry@, all, i as int),
        decreases n - i,
    {
        let t: &Transaction = &ts[i];
        assert(all[i as int] == t@);
        match parse_entry(t) {
            Ok(e) => {
                proof {
                    lemma_entry_step(ntry@, e, all, i as int);
                }
                ntry.push(e);
            },
            Err(e) => {
                proof {
                    assert(first_entry_fault(all, i + 1) == Some(e@));
                    lemma_entry_fault_stays(all, i + 1, n as int);
                }
                return Err(e);
            },
        }
        i += 1;
    }
    Ok(ntry)
}

/// Writes a statement number as the sequence number of the nested document:
/// each part of digits, or of digits, a slash and digits, without its leading
/// zeros, and any other text as it stands.
pub fn sequence_number_text(number: &str) -> (r: String)
    ensures
        r@ == sequence_text(number@),
{
    let chars = chars_of(number);
    let s: &[char] = chars.as_slice();
    let n: usize = s.len();
    let k: usize = find_char(s, '/', 0);
    proof {
        assert(s@.subrange(0, n as int) =~= s@);
    }
    if k >= n {
        if n > 0 && range_all_digits(s, 0, n) {
            let out = strip_leading_zeros(s, 1);
            string_of(out.as_slice())
        } else {
            string_of(s)
        }
    } else if k > 0 && n - k > 1 && range_all_digits(s, 0, k) && range_all_digits(s, k + 1, n) {
        let mut out = strip_leading_zeros(slice_subrange(s, 0, k), 1);
        out.push('/');
        let second = strip_leading_zeros(slice_subrange(s, k + 1, n), 1);
        push_all(&mut out, second.as_slice());
        proof {
            assert(out@ =~= sequence_text(number@));
        }
        string_of(out.as_slice())
    } else {
        string_of(s)
    }
}

/// Copies an optional text.
pub fn clone_text(o: &Option<String>) -> (r: Option<String>)
    ensures
        opt_text(r) == opt_text(*o),
{
    match o {
        Some(s) => Some(s.clone()),
        None => None,
    }
}

/// Converts a statement text into a nested document with exactly one
/// statement. The reference becomes the message id, the statement number the
/// sequence number with each of its parts written without leading zeros, the
/// account the IBAN of
/// an account in the default currency, the balances the nodes `OPBD`, `CLBD`,
/// `CLAV` and `FWAV`, and each transaction one entry. The first balance or
/// transaction that does not convert fails the whole conversion.
pub fn to_camt053(mt940: &Mt940) -> (r: Result<Camt053, ParserError>)
    ensures
        match r {
            Ok(c) => conversion_fault(mt940@.statement) is None && is_camt_of(
                c,
                mt940@.statement,
            ),
            Err(e) => conversion_fault(mt940@.statement) == Some(e@),
        },
{
    let stmt: &StatementModel = &mt940.statement;
    let bal: Vec<Balance> = match convert_balances(stmt) {
        Ok(b) => b,
        Err(e) => {
            return Err(e);
        },
    };
    let ntry: Vec<Entry> = match convert_entries(&stmt.transactions) {
        Ok(n) => n,
        Err(e) => {
            return Err(e);
        },
    };
    let currency: Vec<char> = vec!['E', 'U', 'R'];
    assert(currency@ =~= default_currency());
    let acct = Account {
        id: Some(AccountId { iban: Some(stmt.account.clone()), other: None }),
        ccy: Some(string_of(currency.as_slice())),
        name: None,
    };
    let statement = Statement {
        id: clone_text(&stmt.statement_id),
        elctrnc_seq_nb: Some(sequence_number_text(stmt.statement_number.as_str())),
        lgl_seq_nb: None,
        cre_dt_tm: None,
        fr_to_dt: None,
        acct: Some(acct),
        bal,
        ntry,
    };
    assert(is_statement_node(statement, stmt@));
    let stmts: Vec<Statement> = vec![statement];
    Ok(
        Camt053 {
            bk_to_cstmr_stmt: BankToCustomerStatement {
                grp_hdr: GroupHeader { msg_id: Some(stmt.reference.clone()), cre_dt_tm: None },
                stmts,
            },
        },
    )
}

} // verus!
