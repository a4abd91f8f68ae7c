//! The nested statement document: a tree of optional texts and lists, each
//! field named after the element it stands for.

use vstd::prelude::*;

verus! {

/// The root of a nested statement document.
#[derive(Debug, Default, Clone, PartialEq, Eq)]
pub struct Camt053 {
    /// Element `BkToCstmrStmt`.
    pub bk_to_cstmr_stmt: BankToCustomerStatement,
}

/// The message: a group header and its statements.
#[derive(Debug, Default, Clone, PartialEq, Eq)]
pub struct BankToCustomerStatement {
    /// Element `GrpHdr`.
    pub grp_hdr: GroupHeader,
    /// Element `Stmt`.
    pub stmts: Vec<Statement>,
}

/// What identifies the message.
#[derive(Debug, Default, Clone, PartialEq, Eq)]
pub struct GroupHeader {
    /// Element `MsgId`.
    pub msg_id: Option<String>,
    /// Element `CreDtTm`.
    pub cre_dt_tm: Option<String>,
}

/// One statement of one account.
#[derive(Debug, Default, Clone, PartialEq, Eq)]
pub struct Statement {
    /// Element `Id`.
    pub id: Option<String>,
    /// Element `ElctrncSeqNb`.
    pub elctrnc_seq_nb: Option<String>,
    /// Element `LglSeqNb`.
    pub lgl_seq_nb: Option<String>,
    /// Element `CreDtTm`.
    pub cre_dt_tm: Option<String>,
    /// Element `FrToDt`.
    pub fr_to_dt: Option<FromToDate>,
    /// Element `Acct`.
    pub acct: Option<Account>,
    /// Element `Bal`.
    pub bal: Vec<Balance>,
    /// Element `Ntry`.
    pub ntry: Vec<Entry>,
}

/// The period that a statement covers.
#[derive(Debug, Default, Clone, PartialEq, Eq)]
pub struct FromToDate {
    /// Element `FrDtTm`.
    pub fr_dt_tm: Option<String>,
    /// Element `ToDtTm`.
    pub to_dt_tm: Option<String>,
}

/// The account of a statement.
#[derive(Debug, Default, Clone, PartialEq, Eq)]
pub struct Account {
    /// Element `Id`.
    pub id: Option<AccountId>,
    /// Element `Ccy`.
    pub ccy: Option<String>,
    /// Element `Nm`.
    pub name: Option<String>,
}

/// How an account is identified: by IBAN or otherwise.
#[derive(Debug, Default, Clone, PartialEq, Eq)]
pub struct AccountId {
    /// Element `IBAN`.
    pub iban: Option<String>,
    /// Element `Othr`.
    pub other: Option<GenericAccountIdentification>,
}

/// An account identifier that is not an IBAN.
#[derive(Debug, Default, Clone, PartialEq, Eq)]
pub struct GenericAccountIdentification {
    /// Element `Id`.
    pub id: Option<String>,
}

/// One balance of a statement, told apart by its role code.
#[derive(Debug, Default, Clone, PartialEq, Eq)]
pub struct Balance {
    /// Element `Tp`.
    pub tp: Option<BalanceType>,
    /// Element `Amt`.
    pub amt: Option<Amount>,
    /// Element `CdtDbtInd`.
    pub cdt_dbt_ind: Option<String>,
    /// Element `Dt`.
    pub dt: Option<DateAndDateTimeChoice>,
}

/// The kind of a balance.
#[derive(Debug, Default, Clone, PartialEq, Eq)]
pub struct BalanceType {
    /// Element `CdOrPrtry`.
    pub cd_or_prtry: Option<CodeOrProprietary>,
}

/// A role code, standard or proprietary.
#[derive(Debug, Default, Clone, PartialEq, Eq)]
pub struct CodeOrProprietary {
    /// Element `Cd`.
    pub cd: Option<String>,
    /// Element `Prtry`.
    pub prtry: Option<String>,
}

/// An amount with its currency.
#[derive(Debug, Default, Clone, PartialEq, Eq)]
pub struct Amount {
    /// Attribute `Ccy`.
    pub currency: Option<String>,
    /// The text of the element.
    pub value: Option<String>,
}

/// A date, or a date with a time.
#[derive(Debug, Default, Clone, PartialEq, Eq)]
pub struct DateAndDateTimeChoice {
    /// Element `Dt`.
    pub dt: Option<String>,
    /// Element `DtTm`.
    pub dt_tm: Option<String>,
}

/// One posted movement.
#[derive(Debug, Default, Clone, PartialEq, Eq)]
pub struct Entry {
    /// Element `Amt`.
    pub amt: Option<Amount>,
    /// Element `CdtDbtInd`.
    pub cdt_dbt_ind: Option<String>,
    /// Element `Sts`.
    pub sts: Option<String>,
    /// Element `BookgDt`.
    pub bookg_dt: Option<DateAndDateTimeChoice>,
    /// Element `ValDt`.
    pub val_dt: Option<DateAndDateTimeChoice>,
    /// Element `BkTxCd`.
    pub bk_tx_cd: Option<BankTransactionCode>,
    /// Element `NtryDtls`.
    pub ntry_dtls: Vec<EntryDetails>,
}

/// What kind of movement an entry is.
#[derive(Debug, Default, Clone, PartialEq, Eq)]
pub struct BankTransactionCode {
    /// Element `Domn`.
    pub domn: Option<BankTransactionCodeStructure>,
    /// Element `Prtry`.
    pub prtry: Option<ProprietaryBankTransactionCode>,
}

/// The standard code of a movement.
#[derive(Debug, Default, Clone, PartialEq, Eq)]
pub struct BankTransactionCodeStructure {
    /// Element `Cd`.
    pub cd: Option<String>,
    /// Element `Fmly`.
    pub fmly: Option<BankTransactionCodeFamily>,
}

/// The family of a standard code.
#[derive(Debug, Default, Clone, PartialEq, Eq)]
pub struct BankTransactionCodeFamily {
    /// Element `Cd`.
    pub cd: Option<String>,
    /// Element `SubFmlyCd`.
    pub sub_fmly_cd: Option<String>,
}

/// A code of the bank's own.
#[derive(Debug, Default, Clone, PartialEq, Eq)]
pub struct ProprietaryBankTransactionCode {
    /// Element `Cd`.
    pub cd: Option<String>,
    /// Element `Issr`.
    pub issr: Option<String>,
}

/// The details under an entry.
#[derive(Debug, Default, Clone, PartialEq, Eq)]
pub struct EntryDetails {
    /// Element `TxDtls`.
    pub tx_dtls: Vec<TransactionDetails>,
}

/// One transaction under an entry.
#[derive(Debug, Default, Clone, PartialEq, Eq)]
pub struct TransactionDetails {
    /// Element `Refs`.
    pub refs: Option<TransactionReferences>,
    /// Element `Amt`.
    pub amt: Option<Amount>,
    /// Element `RltdPties`.
    pub rltd_pties: Option<RelatedParties>,
    /// Element `RmtInf`.
    pub rmt_inf: Option<RemittanceInformation>,
}

/// The references of a transaction.
#[derive(Debug, Default, Clone, PartialEq, Eq)]
pub struct TransactionReferences {
    /// Element `MsgId`.
    pub msg_id: Option<String>,
    /// Element `AcctSvcrRef`.
    pub acct_svcr_ref: Option<String>,
    /// Element `PmtInfId`.
    pub pmt_inf_id: Option<String>,
    /// Element `InstrId`.
    pub instr_id: Option<String>,
    /// Element `EndToEndId`.
    pub end_to_end_id: Option<String>,
    /// Element `TxId`.
    pub tx_id: Option<String>,
}

/// Who paid whom.
#[derive(Debug, Default, Clone, PartialEq, Eq)]
pub struct RelatedParties {
    /// Element `Dbtr`.
    pub dbtr: Option<Party>,
    /// Element `Cdtr`.
    pub cdtr: Option<Party>,
    /// Element `DbtrAcct`.
    pub dbtr_acct: Option<AccountIdentification>,
    /// Element `CdtrAcct`.
    pub cdtr_acct: Option<AccountIdentification>,
}

/// A party to a transaction.
#[derive(Debug, Default, Clone, PartialEq, Eq)]
pub struct Party {
    /// Element `Nm`.
    pub name: Option<String>,
}

/// The account of a party.
#[derive(Debug, Default, Clone, PartialEq, Eq)]
pub struct AccountIdentification {
    /// Element `IBAN`.
    pub iban: Option<String>,
    /// Element `Othr`.
    pub other: Option<GenericAccountIdentification>,
}

/// The free text that came with a payment.
#[derive(Debug, Default, Clone, PartialEq, Eq)]
pub struct RemittanceInformation {
    /// Element `Ustrd`.
    pub ustrd: Vec<String>,
}

} // verus!
