//! The typed statement that a statement text decodes into, and the
//! mathematical view of each of its parts.

use vstd::prelude::*;
use crate::dates::{Date, MonthDay};
use crate::errors::BalanceRole;

verus! {

/// The characters of an optional string.
pub open spec fn opt_text(o: Option<String>) -> Option<Seq<char>> {
    match o {
        Some(s) => Some(s@),
        None => None,
    }
}

/// The sign of a balance.
#[derive(Debug, Clone, Copy, PartialEq, Eq, Structural)]
pub enum DebitCredit {
    /// Written `C`.
    Credit,
    /// Written `D`.
    Debit,
}

/// The mark of a statement line.
#[derive(Debug, Clone, Copy, PartialEq, Eq, Structural)]
pub enum EntryMark {
    /// Written `D`.
    Debit,
    /// Written `C`.
    Credit,
    /// Written `RD`: a debit taken back.
    ReversalDebit,
    /// Written `RC`: a credit taken back.
    ReversalCredit,
}

/// The fixed-width record of block one.
#[derive(Debug, Clone, PartialEq, Eq)]
pub struct BasicHeaderBlock {
    /// One character.
    pub application_identifier: String,
    /// Two characters.
    pub service_identifier: String,
    /// Twelve characters.
    pub lt_identifier: String,
    /// Four characters.
    pub session_number: String,
    /// Six characters.
    pub sequence_number: String,
}

/// What a `BasicHeaderBlock` holds.
pub struct BasicHeaderView {
    pub application_identifier: Seq<char>,
    pub service_identifier: Seq<char>,
    pub lt_identifier: Seq<char>,
    pub session_number: Seq<char>,
    pub sequence_number: Seq<char>,
}

impl View for BasicHeaderBlock {
    type V = BasicHeaderView;

    open spec fn view(&self) -> BasicHeaderView {
        BasicHeaderView {
            application_identifier: self.application_identifier@,
            service_identifier: self.service_identifier@,
            lt_identifier: self.lt_identifier@,
            session_number: self.session_number@,
            sequence_number: self.sequence_number@,
        }
    }
}

/// One tag of block four: a code and the text under it.
#[derive(Debug, Clone, PartialEq, Eq)]
pub struct Tag {
    /// The code between the colons, such as `20` or `60F`.
    pub code: String,
    /// The text after the second colon, continuation lines joined by a line
    /// feed.
    pub body: String,
}

/// What a `Tag` holds.
pub struct TagView {
    pub code: Seq<char>,
    pub body: Seq<char>,
}

impl View for Tag {
    type V = TagView;

    open spec fn view(&self) -> TagView {
        TagView { code: self.code@, body: self.body@ }
    }
}

/// A balance of the statement.
#[derive(Debug, Clone, PartialEq, Eq)]
pub struct StatementBalance {
    /// Credit or debit.
    pub sign: DebitCredit,
    /// The day the balance is of.
    pub date: Date,
    /// Three upper case letters.
    pub currency: Option<String>,
    /// The amount as written, with a comma before the decimals.
    pub amount: String,
    /// The part the balance plays.
    pub role: BalanceRole,
    /// The tag body that the balance was decoded from.
    pub raw: String,
}

/// What a `StatementBalance` holds.
pub struct BalanceView {
    pub sign: DebitCredit,
    pub date: Date,
    pub currency: Option<Seq<char>>,
    pub amount: Seq<char>,
    pub role: BalanceRole,
    pub raw: Seq<char>,
}

impl View for StatementBalance {
    type V = BalanceView;

    open spec fn view(&self) -> BalanceView {
        BalanceView {
            sign: self.sign,
            date: self.date,
            currency: opt_text(self.currency),
            amount: self.amount@,
            role: self.role,
            raw: self.raw@,
        }
    }
}

/// One posted movement: a statement line and the narrative under it.
#[derive(Debug, Clone, PartialEq, Eq)]
pub struct Transaction {
    /// The value date.
    pub value_date: Date,
    /// Month and day of the entry, in the year of the value date.
    pub entry_date: Option<MonthDay>,
    /// Debit or credit, plain or reversed.
    pub mark: EntryMark,
    /// One upper case letter.
    pub funds_code: Option<char>,
    /// The amount as written, with a comma before the decimals.
    pub amount: String,
    /// The transaction type identifier.
    pub transaction_type: Option<String>,
    /// The reference after the double slash.
    pub reference: Option<String>,
    /// Text after the type identifier where there is no reference.
    pub supplementary: Option<String>,
    /// The narrative of the tags that followed the line.
    pub narrative: Option<String>,
    /// The tag body that the line was decoded from.
    pub raw: String,
}

/// What a `Transaction` holds.
pub struct TransactionView {
    pub value_date: Date,
    pub entry_date: Option<MonthDay>,
    pub mark: EntryMark,
    pub funds_code: Option<char>,
    pub amount: Seq<char>,
    pub transaction_type: Option<Seq<char>>,
    pub reference: Option<Seq<char>>,
    pub supplementary: Option<Seq<char>>,
    pub narrative: Option<Seq<char>>,
    pub raw: Seq<char>,
}

impl View for Transaction {
    type V = TransactionView;

    open spec fn view(&self) -> TransactionView {
        TransactionView {
            value_date: self.value_date,
            entry_date: self.entry_date,
            mark: self.mark,
            funds_code: self.funds_code,
            amount: self.amount@,
            transaction_type: opt_text(self.transaction_type),
            reference: opt_text(self.reference),
            supplementary: opt_text(self.supplementary),
            narrative: opt_text(self.narrative),
            raw: self.raw@,
        }
    }
}

/// The views of a sequence of tags.
pub open spec fn tag_views(v: Seq<Tag>) -> Seq<TagView> {
    Seq::new(v.len(), |i: int| v[i]@)
}

/// The views of a sequence of balances.
pub open spec fn balance_views(v: Seq<StatementBalance>) -> Seq<BalanceView> {
    Seq::new(v.len(), |i: int| v[i]@)
}

/// The views of a sequence of transactions.
pub open spec fn transaction_views(v: Seq<Transaction>) -> Seq<TransactionView> {
    Seq::new(v.len(), |i: int| v[i]@)
}

/// The decoded content of block four.
#[derive(Debug, Clone, PartialEq, Eq)]
pub struct StatementModel {
    /// Body of tag `20`.
    pub reference: String,
    /// Body of tag `21`.
    pub statement_id: Option<String>,
    /// Body of tag `25`.
    pub account: String,
    /// Body of tag `28` or `28C`.
    pub statement_number: String,
    /// The balance of tag `60F` or `60M`.
    pub opening_balance: StatementBalance,
    /// The statement lines, in the order in which they came.
    pub transactions: Vec<Transaction>,
    /// The balance of tag `62F` or `62M`.
    pub closing_balance: StatementBalance,
    /// The balance of tag `64`.
    pub closing_available: Option<StatementBalance>,
    /// The balances of the tags `65`, in the order in which they came.
    pub forward_available: Vec<StatementBalance>,
    /// Every other tag, in the order in which it came.
    pub extras: Vec<Tag>,
}

/// What a `StatementModel` holds.
pub struct StatementView {
    pub reference: Seq<char>,
    pub statement_id: Option<Seq<char>>,
    pub account: Seq<char>,
    pub statement_number: Seq<char>,
    pub opening_balance: BalanceView,
    pub transactions: Seq<TransactionView>,
    pub closing_balance: BalanceView,
    pub closing_available: Option<BalanceView>,
    pub forward_available: Seq<BalanceView>,
    pub extras: Seq<TagView>,
}

impl View for StatementModel {
    type V = StatementView;

    open spec fn view(&self) -> StatementView {
        StatementView {
            reference: self.reference@,
            statement_id: opt_text(self.statement_id),
            account: self.account@,
            statement_number: self.statement_number@,
            opening_balance: self.opening_balance@,
            transactions: transaction_views(self.transactions@),
            closing_balance: self.closing_balance@,
            closing_available: match self.closing_available {
                Some(b) => Some(b@),
                None => None,
            },
            forward_available: balance_views(self.forward_available@),
            extras: tag_views(self.extras@),
        }
    }
}

/// A whole statement text: the envelope and the statement in it.
#[derive(Debug, Clone, PartialEq, Eq)]
pub struct Mt940 {
    /// Block one.
    pub basic_header: BasicHeaderBlock,
    /// Block two, as it stands.
    pub application_header: String,
    /// Block three, as it stands.
    pub user_header: Option<String>,
    /// Block four, decoded.
    pub statement: StatementModel,
    /// Block five, as it stands.
    pub footer: Option<String>,
}

/// What an `Mt940` holds.
pub struct Mt940View {
    pub basic_header: BasicHeaderView,
    pub application_header: Seq<char>,
    pub user_header: Option<Seq<char>>,
    pub statement: StatementView,
    pub footer: Option<Seq<char>>,
}

impl View for Mt940 {
    type V = Mt940View;

    open spec fn view(&self) -> Mt940View {
        Mt940View {
            basic_header: self.basic_header@,
            application_header: self.application_header@,
            user_header: opt_text(self.user_header),
            statement: self.statement@,
            footer: opt_text(self.footer),
        }
    }
}

} // verus!
