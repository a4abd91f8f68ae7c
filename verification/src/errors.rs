//! The ways in which decoding and conversion fail.

use vstd::prelude::*;
use crate::SupportedFormats;

verus! {

/// The mandatory blocks of a statement text.
#[derive(Debug, Clone, Copy, PartialEq, Eq, Structural)]
pub enum BlockName {
    /// Block one.
    BasicHeader,
    /// Block two.
    ApplicationHeader,
    /// Block four.
    StatementBody,
}

/// The part a balance plays in a statement.
#[derive(Debug, Clone, Copy, PartialEq, Eq, Structural)]
pub enum BalanceRole {
    /// Booked balance at the start of the statement.
    Opening,
    /// Booked balance at the end of the statement.
    Closing,
    /// Available balance at the end of the statement.
    ClosingAvailable,
    /// Available balance at a later value date.
    ForwardAvailable,
}

/// Every failure of the library. A failure ends the call that met it: no
/// partial result is handed out.
#[derive(Debug, Clone, PartialEq, Eq)]
pub enum ParserError {
    /// The basic header does not have its fixed length.
    MalformedEnvelope,
    /// A mandatory block is absent.
    MissingBlock(BlockName),
    /// A balance starts with a character that is neither `C` nor `D`.
    InvalidIndicator(char),
    /// A balance body does not follow its grammar; carries the body.
    InvalidBalance(String),
    /// A statement line does not follow its grammar; carries the body.
    InvalidTransaction(String),
    /// A statement lacks a balance that it must carry.
    MissingBalance(BalanceRole),
    /// No mapping exists from the first format to the second.
    UnsupportedConversion(SupportedFormats, SupportedFormats),
    /// The payload handed in is not of the kind that its format needs.
    InvalidInput,
}

/// What a `ParserError` holds.
pub enum Fault {
    MalformedEnvelope,
    MissingBlock(BlockName),
    InvalidIndicator(char),
    InvalidBalance(Seq<char>),
    InvalidTransaction(Seq<char>),
    MissingBalance(BalanceRole),
    UnsupportedConversion(SupportedFormats, SupportedFormats),
    InvalidInput,
}

impl View for ParserError {
    type V = Fault;

    open spec fn view(&self) -> Fault {
        match *self {
            ParserError::MalformedEnvelope => Fault::MalformedEnvelope,
            ParserError::MissingBlock(b) => Fault::MissingBlock(b),
            ParserError::InvalidIndicator(c) => Fault::InvalidIndicator(c),
            ParserError::InvalidBalance(raw) => Fault::InvalidBalance(raw@),
            ParserError::InvalidTransaction(raw) => Fault::InvalidTransaction(raw@),
            ParserError::MissingBalance(r) => Fault::MissingBalance(r),
            ParserError::UnsupportedConversion(a, b) => Fault::UnsupportedConversion(a, b),
            ParserError::InvalidInput => Fault::InvalidInput,
        }
    }
}

/// The code by which the nested document names a balance role.
pub open spec fn role_code(role: BalanceRole) -> Seq<char> {
    match role {
        BalanceRole::Opening => seq!['O', 'P', 'B', 'D'],
        BalanceRole::Closing => seq!['C', 'L', 'B', 'D'],
        BalanceRole::ClosingAvailable => seq!['C', 'L', 'A', 'V'],
        BalanceRole::ForwardAvailable => seq!['F', 'W', 'A', 'V'],
    }
}

impl BalanceRole {
    /// The code by which the nested document names the role: `OPBD`, `CLBD`,
    /// `CLAV` or `FWAV`.
    pub fn code(&self) -> (r: Vec<char>)
        ensures
            r@ == role_code(*self),
    {
        let r = match self {
            BalanceRole::Opening => vec!['O', 'P', 'B', 'D'],
            BalanceRole::Closing => vec!['C', 'L', 'B', 'D'],
            BalanceRole::ClosingAvailable => vec!['C', 'L', 'A', 'V'],
            BalanceRole::ForwardAvailable => vec!['F', 'W', 'A', 'V'],
        };
        proof {
            assert(r@ =~= role_code(*self));
        }
        r
    }
}

} // verus!
