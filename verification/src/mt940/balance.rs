//! The grammar of a balance: a sign, six digits of a date, three letters of
//! a currency, an amount.

use vstd::prelude::*;
use vstd::slice::slice_subrange;
use crate::amount::{check_amount, is_amount};
use crate::dates::{
    decode_yymmdd, lemma_two_digits, lemma_yymmdd_render, lemma_yymmdd_round_trip, make_date,
    push_yymmdd, read_yymmdd, render_yymmdd,
};
use crate::errors::{BalanceRole, Fault, ParserError};
use crate::mt940::format::{BalanceView, DebitCredit, StatementBalance};
use crate::text::{all_upper, chars_of, push_all, range_all_upper, string_of};

verus! {

/// The sign that a character stands for.
pub open spec fn sign_of(c: char) -> Option<DebitCredit> {
    if c == 'C' {
        Some(DebitCredit::Credit)
    } else if c == 'D' {
        Some(DebitCredit::Debit)
    } else {
        None
    }
}

/// The character that stands for a sign.
pub open spec fn sign_char(sign: DebitCredit) -> char {
    match sign {
        DebitCredit::Credit => 'C',
        DebitCredit::Debit => 'D',
    }
}

/// What a balance body decodes into. An empty body is malformed; a first
/// character other than `C` and `D` is an invalid indicator; then six digits
/// of a day that exists, three upper case letters and a wire amount must
/// follow, and the body is malformed where one of them does not.
pub open spec fn decode_balance(body: Seq<char>, role: BalanceRole) -> Result<BalanceView, Fault> {
    if body.len() == 0 {
        Err(Fault::InvalidBalance(body))
    } else if sign_of(body[0]) is None {
        Err(Fault::InvalidIndicator(body[0]))
    } else if body.len() < 10 {
        Err(Fault::InvalidBalance(body))
    } else if decode_yymmdd(body.subrange(1, 7)) is None || !all_upper(body.subrange(7, 10))
        || !is_amount(body.subrange(10, body.len() as int)) {
        Err(Fault::InvalidBalance(body))
    } else {
        Ok(
            BalanceView {
                sign: sign_of(body[0])->0,
                date: decode_yymmdd(body.subrange(1, 7))->0,
                currency: Some(body.subrange(7, 10)),
                amount: body.subrange(10, body.len() as int),
                role,
                raw: body,
            },
        )
    }
}

impl BalanceView {
    /// The currency, or no characters where there is none.
    pub open spec fn currency_text(self) -> Seq<char> {
        match self.currency {
            Some(c) => c,
            None => Seq::empty(),
        }
    }

    /// The balance written by the grammar from its fields.
    pub open spec fn render(self) -> Seq<char> {
        seq![sign_char(self.sign)] + render_yymmdd(self.date) + self.currency_text() + self.amount
    }

    /// The fields follow the grammar, and the raw text is the balance as the
    /// grammar writes it.
    pub open spec fn is_well_formed(self) -> bool {
        &&& self.date.is_valid()
        &&& self.date.in_pivot_window()
        &&& self.currency is Some
        &&& self.currency_text().len() == 3
        &&& all_upper(self.currency_text())
        &&& is_amount(self.amount)
        &&& self.raw == self.render()
    }
}

/// Decodes the characters of a balance body.
pub fn decode_balance_chars(body: &[char], role: BalanceRole) -> (r: Result<
    StatementBalance,
    ParserError,
>)
    ensures
        match r {
            Ok(b) => decode_balance(body@, role) == Ok::<BalanceView, Fault>(b@),
            Err(e) => decode_balance(body@, role) == Err::<BalanceView, Fault>(e@),
        },
{
    let n: usize = body.len();
    if n == 0 {
        return Err(ParserError::InvalidBalance(string_of(body)));
    }
    let first: char = body[0];
    if first != 'C' && first != 'D' {
        return Err(ParserError::InvalidIndicator(first));
    }
    let sign = if first == 'C' { DebitCredit::Credit } else { DebitCredit::Debit };
    if n < 10 {
        return Err(ParserError::InvalidBalance(string_of(body)));
    }
    let date = match read_yymmdd(body, 1) {
        Some(d) => d,
        None => {
            return Err(ParserError::InvalidBalance(string_of(body)));
        },
    };
    if !range_all_upper(body, 7, 10) || !check_amount(body, 10, n) {
        return Err(ParserError::InvalidBalance(string_of(body)));
    }
    Ok(
        StatementBalance {
            sign,
            date,
            currency: Some(string_of(slice_subrange(body, 7, 10))),
            amount: string_of(slice_subrange(body, 10, n)),
            role,
            raw: string_of(body),
        },
    )
}

impl StatementBalance {
    /// Decodes a balance body in the given role.
    pub fn parse(body: &str, role: BalanceRole) -> (r: Result<StatementBalance, ParserError>)
        ensures
            match r {
                Ok(b) => decode_balance(body@, role) == Ok::<BalanceView, Fault>(b@),
                Err(e) => decode_balance(body@, role) == Err::<BalanceView, Fault>(e@),
            },
    {
        let chars = chars_of(body);
        decode_balance_chars(chars.as_slice(), role)
    }

    /// Writes the balance by the grammar from its fields. A balance whose
    /// date does not exist, or has a year of more than four digits, has no
    /// written form.
    pub fn wire_chars(&self) -> (r: Option<Vec<char>>)
        ensures
            match r {
                Some(line) => self.date.is_valid() && line@ == self@.render(),
                None => !self.date.is_valid(),
            },
    {
        if make_date(self.date.year, self.date.month, self.date.day).is_none() {
            return None;
        }
        let mut out: Vec<char> = Vec::new();
        out.push(
            match self.sign {
                DebitCredit::Credit => 'C',
                DebitCredit::Debit => 'D',
            },
        );
        push_yymmdd(&mut out, self.date);
        match &self.currency {
            Some(c) => {
                let chars = chars_of(c.as_str());
                push_all(&mut out, chars.as_slice());
            },
            None => {},
        }
        let amount = chars_of(self.amount.as_str());
        push_all(&mut out, amount.as_slice());
        proof {
            assert(out@ =~= self@.render());
        }
        Some(out)
    }
}

/// What a body decodes into is well formed, and its raw text is the body.
pub proof fn lemma_decoded_balance_is_well_formed(body: Seq<char>, role: BalanceRole)
    requires
        decode_balance(body, role) is Ok,
    ensures
        (decode_balance(body, role)->Ok_0).is_well_formed(),
        (decode_balance(body, role)->Ok_0).raw == body,
        (decode_balance(body, role)->Ok_0).role == role,
{
    let b = decode_balance(body, role)->Ok_0;
    lemma_yymmdd_render(body.subrange(1, 7));
    assert(b.render() =~= body);
}

/// A well formed balance, written by the grammar and decoded again, is the
/// same balance: sign, date, currency and amount come back exactly.
pub proof fn law_balance_round_trip(b: BalanceView)
    requires
        b.is_well_formed(),
    ensures
        decode_balance(b.render(), b.role) == Ok::<BalanceView, Fault>(b),
{
    let body = b.render();
    lemma_yymmdd_round_trip(b.date);
    assert(render_yymmdd(b.date).len() == 6) by {
        lemma_two_digits(b.date.year as int % 100);
        lemma_two_digits(b.date.month as int);
        lemma_two_digits(b.date.day as int);
    }
    assert(body.subrange(1, 7) =~= render_yymmdd(b.date));
    assert(body.subrange(7, 10) =~= b.currency_text());
    assert(body.subrange(10, body.len() as int) =~= b.amount);
    assert(body[0] == sign_char(b.sign));
}

} // verus!
