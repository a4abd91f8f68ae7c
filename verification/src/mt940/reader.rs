//! The decoder: tags into a statement, and a whole text into an `Mt940`.

use vstd::prelude::*;
use crate::errors::{BalanceRole, BlockName, Fault, ParserError};
use crate::mt940::balance::{decode_balance, decode_balance_chars};
use crate::mt940::blocks::{slot_texts, split_blocks, split_chars};
use crate::mt940::format::{
    balance_views, opt_text, tag_views, transaction_views, BalanceView, Mt940, Mt940View,
    StatementBalance, StatementModel, StatementView, Tag, TagView, Transaction, TransactionView,
};
use crate::mt940::header::{basic_header_from_chars, decode_basic_header};
use crate::mt940::tokenizer::{split_lines, tokenize_lines, tokenize_text};
use crate::mt940::transaction::{decode_transaction, decode_transaction_chars};
use crate::text::{chars_of, push_all, string_of};

verus! {

/// A statement while its tags are being read.
pub struct Draft {
    pub reference: Seq<char>,
    pub statement_id: Option<Seq<char>>,
    pub account: Seq<char>,
    pub statement_number: Seq<char>,
    pub opening: Option<BalanceView>,
    pub transactions: Seq<TransactionView>,
    pub closing: Option<BalanceView>,
    pub closing_available: Option<BalanceView>,
    pub forward_available: Seq<BalanceView>,
    pub extras: Seq<TagView>,
}

/// The draft before the first tag.
pub open spec fn empty_draft() -> Draft {
    Draft {
        reference: Seq::empty(),
        statement_id: None,
        account: Seq::empty(),
        statement_number: Seq::empty(),
        opening: None,
        transactions: Seq::empty(),
        closing: None,
        closing_available: None,
        forward_available: Seq::empty(),
        extras: Seq::empty(),
    }
}

/// A narrative with one more tag body: the body alone where there was no
/// narrative, else the two with a line feed between them.
pub open spec fn narrative_with(old_text: Option<Seq<char>>, body: Seq<char>) -> Seq<char> {
    match old_text {
        Some(n) => n + seq!['\n'] + body,
        None => body,
    }
}

/// A transaction with one more narrative tag under it.
pub open spec fn with_narrative(t: TransactionView, body: Seq<char>) -> TransactionView {
    TransactionView { narrative: Some(narrative_with(t.narrative, body)), ..t }
}

/// The draft after one more tag. The codes `20`, `21`, `25`, `28` and `28C`
/// set a text; `60F` and `60M` the opening balance; `62F` and `62M` the
/// closing balance; `64` the closing available balance; `65` adds a forward
/// available balance; `61` adds a transaction; `86` goes under the last
/// transaction, or to the other tags where there is none yet; any other code
/// goes to the other tags. A later tag of a code that sets something
/// replaces what an earlier one set.
pub open spec fn apply_tag(d: Draft, t: TagView) -> Result<Draft, Fault> {
    if t.code == seq!['2', '0'] {
        Ok(Draft { reference: t.body, ..d })
    } else if t.code == seq!['2', '1'] {
        Ok(Draft { statement_id: Some(t.body), ..d })
    } else if t.code == seq!['2', '5'] {
        Ok(Draft { account: t.body, ..d })
    } else if t.code == seq!['2', '8'] || t.code == seq!['2', '8', 'C'] {
        Ok(Draft { statement_number: t.body, ..d })
    } else if t.code == seq!['6', '0', 'F'] || t.code == seq!['6', '0', 'M'] {
        match decode_balance(t.body, BalanceRole::Opening) {
            Ok(b) => Ok(Draft { opening: Some(b), ..d }),
            Err(f) => Err(f),
        }
    } else if t.code == seq!['6', '2', 'F'] || t.code == seq!['6', '2', 'M'] {
        match decode_balance(t.body, BalanceRole::Closing) {
            Ok(b) => Ok(Draft { closing: Some(b), ..d }),
            Err(f) => Err(f),
        }
    } else if t.code == seq!['6', '4'] {
        match decode_balance(t.body, BalanceRole::ClosingAvailable) {
            Ok(b) => Ok(Draft { closing_available: Some(b), ..d }),
            Err(f) => Err(f),
        }
    } else if t.code == seq!['6', '5'] {
        match decode_balance(t.body, BalanceRole::ForwardAvailable) {
            Ok(b) => Ok(Draft { forward_available: d.forward_available.push(b), ..d }),
            Err(f) => Err(f),
        }
    } else if t.code == seq!['6', '1'] {
        match decode_transaction(t.body) {
            Ok(x) => Ok(Draft { transactions: d.transactions.push(x), ..d }),
            Err(f) => Err(f),
        }
    } else if t.code == seq!['8', '6'] && d.transactions.len() > 0 {
        Ok(
            Draft {
                transactions: d.transactions.update(
                    d.transactions.len() - 1,
                    with_narrative(d.transactions.last(), t.body),
                ),
                ..d
            },
        )
    } else {
        Ok(Draft { extras: d.extras.push(t), ..d })
    }
}

/// The draft after the tags from `i` on, or the first failure among them.
pub open spec fn decode_tags(tags: Seq<TagView>, i: int, d: Draft) -> Result<Draft, Fault>
    decreases tags.len() - i,
{
    if i < 0 || i >= tags.len() {
        Ok(d)
    } else {
        match apply_tag(d, tags[i]) {
            Ok(next) => decode_tags(tags, i + 1, next),
            Err(f) => Err(f),
        }
    }
}

/// The statement of a finished draft. A statement must carry an opening and
/// a closing balance.
pub open spec fn finish(d: Draft) -> Result<StatementView, Fault> {
    if d.opening is None {
        Err(Fault::MissingBalance(BalanceRole::Opening))
    } else if d.closing is None {
        Err(Fault::MissingBalance(BalanceRole::Closing))
    } else {
        Ok(
            StatementView {
                reference: d.reference,
                statement_id: d.statement_id,
                account: d.account,
                statement_number: d.statement_number,
                opening_balance: d.opening->0,
                transactions: d.transactions,
                closing_balance: d.closing->0,
                closing_available: d.closing_available,
                forward_available: d.forward_available,
                extras: d.extras,
            },
        )
    }
}

/// The statement that a sequence of tags decodes into.
pub open spec fn decode_statement(tags: Seq<TagView>) -> Result<StatementView, Fault> {
    match decode_tags(tags, 0, empty_draft()) {
        Ok(d) => finish(d),
        Err(f) => Err(f),
    }
}

/// What a whole statement text decodes into. Blocks one, two and four must
/// be there, block one must have its fixed length, and block four must
/// decode.
pub open spec fn decode_mt940(text: Seq<char>) -> Result<Mt940View, Fault> {
    let blocks = split_blocks(text);
    if blocks[0] is None {
        Err(Fault::MissingBlock(BlockName::BasicHeader))
    } else if decode_basic_header(blocks[0]->0) is None {
        Err(Fault::MalformedEnvelope)
    } else if blocks[1] is None {
        Err(Fault::MissingBlock(BlockName::ApplicationHeader))
    } else if blocks[3] is None {
        Err(Fault::MissingBlock(BlockName::StatementBody))
    } else {
        match decode_statement(tokenize_text(blocks[3]->0)) {
            Ok(s) => Ok(
                Mt940View {
                    basic_header: decode_basic_header(blocks[0]->0)->0,
                    application_header: blocks[1]->0,
                    user_header: blocks[2],
                    statement: s,
                    footer: blocks[4],
                },
            ),
            Err(f) => Err(f),
        }
    }
}

/// The view of an optional balance.
pub open spec fn opt_balance(o: Option<StatementBalance>) -> Option<BalanceView> {
    match o {
        Some(b) => Some(b@),
        None => None,
    }
}

/// The transactions of a draft: the finished ones and the one that
/// narrative tags still go under.
pub open spec fn with_pending(done: Seq<Transaction>, pending: Option<Transaction>) -> Seq<
    TransactionView,
> {
    match pending {
        Some(t) => transaction_views(done).push(t@),
        None => transaction_views(done),
    }
}

/// Tells whether a code is the two given characters.
fn is_code2(code: &[char], a: char, b: char) -> (r: bool)
    ensures
        r == (code@ == seq![a, b]),
{
    let r = code.len() == 2 && code[0] == a && code[1] == b;
    proof {
        if r {
            assert(code@ =~= seq![a, b]);
        } else if code@ == seq![a, b] {
            assert(seq![a, b][0] == a && seq![a, b][1] == b);
        }
    }
    r
}

/// Tells whether a code is the three given characters.
fn is_code3(code: &[char], a: char, b: char, c: char) -> (r: bool)
    ensures
        r == (code@ == seq![a, b, c]),
{
    let r = code.len() == 3 && code[0] == a && code[1] == b && code[2] == c;
    proof {
        if r {
            assert(code@ =~= seq![a, b, c]);
        } else if code@ == seq![a, b, c] {
            assert(seq![a, b, c][0] == a && seq![a, b, c][1] == b && seq![a, b, c][2] == c);
        }
    }
    r
}

/// Puts one more tag body under a narrative.
fn extend_narrative(old_text: &Option<String>, body: &str) -> (r: String)
    ensures
        r@ == narrative_with(opt_text(*old_text), body@),
{
    let mut out: Vec<char> = Vec::new();
    match old_text {
        Some(n) => {
            let chars = chars_of(n.as_str());
            push_all(&mut out, chars.as_slice());
            out.push('\n');
        },
        None => {},
    }
    let chars = chars_of(body);
    push_all(&mut out, chars.as_slice());
    proof {
        assert(out@ =~= narrative_with(opt_text(*old_text), body@));
    }
    string_of(out.as_slice())
}

/// Decodes the tags of block four into a statement.
pub fn decode_statement_tags(tags: &Vec<Tag>) -> (r: Result<StatementModel, ParserError>)
    ensures
        match r {
            Ok(s) => decode_statement(tag_views(tags@)) == Ok::<StatementView, Fault>(s@),
            Err(e) => decode_statement(tag_views(tags@)) == Err::<StatementView, Fault>(e@),
        },
{
    let n: usize = tags.len();
    let ghost all = tag_views(tags@);
    let mut reference: String = String::new();
    let mut statement_id: Option<String> = None;
    let mut account: String = String::new();
    let mut statement_number: String = String::new();
    let mut opening: Option<StatementBalance> = None;
    let mut closing: Option<StatementBalance> = None;
    let mut closing_available: Option<StatementBalance> = None;
    let mut forward_available: Vec<StatementBalance> = Vec::new();
    let mut done: Vec<Transaction> = Vec::new();
    let mut pending: Option<Transaction> = None;
    let mut extras: Vec<Tag> = Vec::new();
    let mut i: usize = 0;
    proof {
        assert(with_pending(done@, pending) =~= Seq::<TransactionView>::empty());
        assert(balance_views(forward_available@) =~= Seq::<BalanceView>::empty());
        assert(tag_views(extras@) =~= Seq::<TagView>::empty());
    }
    while i < n
        invariant
            n == tags@.len(),
            all == tag_views(tags@),
            i <= n,
            pending is None ==> done@.len() == 0,
            decode_tags(all, 0, empty_draft()) == decode_tags(
                all,
                i as int,
                Draft {
                    reference: reference@,
                    statement_id: opt_text(statement_id),
                    account: account@,
                    statement_number: statement_number@,
                    opening: opt_balance(opening),
                    transactions: with_pending(done@, pending),
                    closing: opt_balance(closing),
                    closing_available: opt_balance(closing_available),
                    forward_available: balance_views(forward_available@),
                    extras: tag_views(extras@),
                },
            ),
        decreases n - i,
    {
        let tag: &Tag = &tags[i];
        assert(all[i as int] == tag@);
        let code_vec = chars_of(tag.code.as_str());
        let code: &[char] = code_vec.as_slice();
        let body_vec = chars_of(tag.body.as_str());
        let body: &[char] = body_vec.as_slice();
        if is_code2(code, '2', '0') {
            reference = tag.body.clone();
        } else if is_code2(code, '2', '1') {
            statement_id = Some(tag.body.clone());
        } else if is_code2(code, '2', '5') {
            account = tag.body.clone();
        } else if is_code2(code, '2', '8') || is_code3(code, '2', '8', 'C') {
            statement_number = tag.body.clone();
        } else if is_code3(code, '6', '0', 'F') || is_code3(code, '6', '0', 'M') {
            match decode_balance_chars(body, BalanceRole::Opening) {
                Ok(b) => {
                    opening = Some(b);
                },
                Err(e) => {
                    return Err(e);
                },
            }
        } else if is_code3(code, '6', '2', 'F') || is_code3(code, '6', '2', 'M') {
            match decode_balance_chars(body, BalanceRole::Closing) {
                Ok(b) => {
                    closing = Some(b);
                },
                Err(e) => {
                    return Err(e);
                },
            }
        } else if is_code2(code, '6', '4') {
            match decode_balance_chars(body, BalanceRole::ClosingAvailable) {
                Ok(b) => {
                    closing_available = Some(b);
                },
                Err(e) => {
                    return Err(e);
                },
            }
        } else if is_code2(code, '6', '5') {
            match decode_balance_chars(body, BalanceRole::ForwardAvailable) {
                Ok(b) => {
                    let ghost before = balance_views(forward_available@);
                    forward_available.push(b);
                    proof {
                        assert(balance_views(forward_available@) =~= before.push(b@));
                    }
                },
                Err(e) => {
                    return Err(e);
                },
            }
        } else if is_code2(code, '6', '1') {
            match decode_transaction_chars(body) {
                Ok(x) => {
                    let ghost before = with_pending(done@, pending);
                    match pending {
                        Some(p) => {
                            let ghost finished = transaction_views(done@);
                            done.push(p);
                            proof {
                                assert(transaction_views(done@) =~= finished.push(p@));
                            }
                        },
                        None => {},
                    }
                    pending = Some(x);
                    proof {
                        assert(with_pending(done@, pending) =~= before.push(x@));
                    }
                },
                Err(e) => {
                    return Err(e);
                },
            }
        } else if is_code2(code, '8', '6') && pending.is_some() {
            let ghost before = with_pending(done@, pending);
            let p: Transaction = pending.unwrap();
            let narrative = extend_narrative(&p.narrative, tag.body.as_str());
            let next = Transaction {
                value_date: p.value_date,
                entry_date: p.entry_date,
                mark: p.mark,
                funds_code: p.funds_code,
                amount: p.amount,
                transaction_type: p.transaction_type,
                reference: p.reference,
                supplementary: p.supplementary,
                narrative: Some(narrative),
                raw: p.raw,
            };
            pending = Some(next);
            proof {
                assert(next@ == with_narrative(p@, tag@.body));
                assert(before.last() == p@);
                assert(with_pending(done@, pending) =~= before.update(
                    before.len() - 1,
                    with_narrative(before.last(), tag@.body),
                ));
            }
        } else {
            proof {
                if tag@.code == seq!['8', '6'] {
                    assert(with_pending(done@, pending).len() == 0);
                }
            }
            let ghost before = tag_views(extras@);
            let copy = Tag { code: tag.code.clone(), body: tag.body.clone() };
            extras.push(copy);
            proof {
                assert(tag_views(extras@) =~= before.push(tag@));
            }
        }
        i += 1;
    }
    let ghost before = with_pending(done@, pending);
    match pending {
        Some(p) => {
            let ghost finished = transaction_views(done@);
            done.push(p);
            proof {
                assert(transaction_views(done@) =~= finished.push(p@));
            }
        },
        None => {},
    }
    assert(transaction_views(done@) == before);
    let opening_balance = match opening {
        Some(b) => b,
        None => {
            return Err(ParserError::MissingBalance(BalanceRole::Opening));
        },
    };
    let closing_balance = match closing {
        Some(b) => b,
        None => {
            return Err(ParserError::MissingBalance(BalanceRole::Closing));
        },
    };
    Ok(
        StatementModel {
            reference,
            statement_id,
            account,
            statement_number,
            opening_balance,
            transactions: done,
            closing_balance,
            closing_available,
            forward_available,
            extras,
        },
    )
}

impl StatementModel {
    /// Decodes the text of block four: cuts it into tags and decodes them.
    pub fn parse(block: &str) -> (r: Result<StatementModel, ParserError>)
        ensures
            match r {
                Ok(s) => decode_statement(tokenize_text(block@)) == Ok::<StatementView, Fault>(s@),
                Err(e) => decode_statement(tokenize_text(block@)) == Err::<StatementView, Fault>(
                    e@,
                ),
            },
    {
        let chars = chars_of(block);
        let lines = split_lines(chars.as_slice());
        let tags = tokenize_lines(&lines);
        decode_statement_tags(&tags)
    }
}

impl Mt940 {
    /// Decodes a whole statement text. It fails with `MissingBlock` where
    /// block one, two or four is absent, with `MalformedEnvelope` where block
    /// one does not have twenty-five characters, and with the failure of the
    /// first tag of block four that does not decode.
    pub fn from_string(data: &str) -> (r: Result<Mt940, ParserError>)
        ensures
            match r {
                Ok(m) => decode_mt940(data@) == Ok::<Mt940View, Fault>(m@),
                Err(e) => decode_mt940(data@) == Err::<Mt940View, Fault>(e@),
            },
    {
        let chars = chars_of(data);
        let blocks = split_chars(chars.as_slice());
        let ghost slots = split_blocks(data@);
        assert(forall|k: int| 0 <= k < 5 ==> slot_texts(blocks@)[k] == opt_text(#[trigger] blocks@[k]));
        let basic_header = match &blocks[0] {
            Some(h) => {
                let hc = chars_of(h.as_str());
                match basic_header_from_chars(hc.as_slice()) {
                    Ok(b) => b,
                    Err(e) => {
                        return Err(e);
                    },
                }
            },
            None => {
                return Err(ParserError::MissingBlock(BlockName::BasicHeader));
            },
        };
        let application_header: String = match &blocks[1] {
            Some(a) => a.clone(),
            None => {
                return Err(ParserError::MissingBlock(BlockName::ApplicationHeader));
            },
        };
        let statement = match &blocks[3] {
            Some(b) => {
                match StatementModel::parse(b.as_str()) {
                    Ok(s) => s,
                    Err(e) => {
                        return Err(e);
                    },
                }
            },
            None => {
                return Err(ParserError::MissingBlock(BlockName::StatementBody));
            },
        };
        let user_header: Option<String> = match &blocks[2] {
            Some(u) => Some(u.clone()),
            None => None,
        };
        let footer: Option<String> = match &blocks[4] {
            Some(u) => Some(u.clone()),
            None => None,
        };
        Ok(Mt940 { basic_header, application_header, user_header, statement, footer })
    }
}

/// The balance is well formed and plays the role.
pub open spec fn is_balance_of_role(b: BalanceView, role: BalanceRole) -> bool {
    b.is_well_formed() && b.role == role
}

impl StatementView {
    /// Each balance is well formed and plays the role of the place where it
    /// stands.
    pub open spec fn has_well_formed_balances(self) -> bool {
        &&& is_balance_of_role(self.opening_balance, BalanceRole::Opening)
        &&& is_balance_of_role(self.closing_balance, BalanceRole::Closing)
        &&& match self.closing_available {
            Some(b) => is_balance_of_role(b, BalanceRole::ClosingAvailable),
            None => true,
        }
        &&& forall|i: int|
            0 <= i < self.forward_available.len() ==> is_balance_of_role(
                #[trigger] self.forward_available[i],
                BalanceRole::ForwardAvailable,
            )
    }
}

/// The balances that a draft holds so far are well formed and play their
/// roles.
pub open spec fn draft_has_well_formed_balances(d: Draft) -> bool {
    &&& match d.opening {
        Some(b) => is_balance_of_role(b, BalanceRole::Opening),
        None => true,
    }
    &&& match d.closing {
        Some(b) => is_balance_of_role(b, BalanceRole::Closing),
        None => true,
    }
    &&& match d.closing_available {
        Some(b) => is_balance_of_role(b, BalanceRole::ClosingAvailable),
        None => true,
    }
    &&& forall|i: int|
        0 <= i < d.forward_available.len() ==> is_balance_of_role(
            #[trigger] d.forward_available[i],
            BalanceRole::ForwardAvailable,
        )
}

/// One more tag leaves the balances of a draft well formed.
pub proof fn lemma_apply_tag_balances(d: Draft, t: TagView)
    requires
        draft_has_well_formed_balances(d),
        apply_tag(d, t) is Ok,
    ensures
        draft_has_well_formed_balances(apply_tag(d, t)->Ok_0),
{
    let next = apply_tag(d, t)->Ok_0;
    if decode_balance(t.body, BalanceRole::Opening) is Ok {
        crate::mt940::balance::lemma_decoded_balance_is_well_formed(t.body, BalanceRole::Opening);
    }
    if decode_balance(t.body, BalanceRole::Closing) is Ok {
        crate::mt940::balance::lemma_decoded_balance_is_well_formed(t.body, BalanceRole::Closing);
    }
    if decode_balance(t.body, BalanceRole::ClosingAvailable) is Ok {
        crate::mt940::balance::lemma_decoded_balance_is_well_formed(
            t.body,
            BalanceRole::ClosingAvailable,
        );
    }
    if decode_balance(t.body, BalanceRole::ForwardAvailable) is Ok {
        crate::mt940::balance::lemma_decoded_balance_is_well_formed(
            t.body,
            BalanceRole::ForwardAvailable,
        );
    }
    assert forall|i: int| 0 <= i < next.forward_available.len() implies is_balance_of_role(
        #[trigger] next.forward_available[i],
        BalanceRole::ForwardAvailable,
    ) by {
        if i < d.forward_available.len() {
            assert(next.forward_available[i] == d.forward_available[i]);
        }
    }
}

/// The tags from `i` on leave the balances of a draft well formed.
pub proof fn lemma_decode_tags_balances(tags: Seq<TagView>, i: int, d: Draft)
    requires
        draft_has_well_formed_balances(d),
        decode_tags(tags, i, d) is Ok,
    ensures
        draft_has_well_formed_balances(decode_tags(tags, i, d)->Ok_0),
    decreases tags.len() - i,
{
    if 0 <= i < tags.len() {
        lemma_apply_tag_balances(d, tags[i]);
        lemma_decode_tags_balances(tags, i + 1, apply_tag(d, tags[i])->Ok_0);
    }
}

/// Every statement that the decoder hands out has well formed balances in
/// their roles.
pub proof fn law_decoded_statement_balances(tags: Seq<TagView>)
    requires
        decode_statement(tags) is Ok,
    ensures
        (decode_statement(tags)->Ok_0).has_well_formed_balances(),
{
    lemma_decode_tags_balances(tags, 0, empty_draft());
}

/// A statement text whose basic header has not its twenty-five characters
/// does not decode: it is a malformed envelope, whatever else it holds.
pub proof fn law_wrong_header_length(text: Seq<char>)
    requires
        split_blocks(text)[0] is Some,
        (split_blocks(text)[0]->0).len() != 25,
    ensures
        decode_mt940(text) == Err::<Mt940View, Fault>(Fault::MalformedEnvelope),
{
}

} // verus!
