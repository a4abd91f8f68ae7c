//! Statements that are read back as they are written, and why every decoded
//! statement is one.

use vstd::prelude::*;
use crate::errors::{BalanceRole, Fault};
use crate::mt940::balance::{decode_balance, lemma_decoded_balance_is_well_formed};
use crate::mt940::format::{BalanceView, StatementView, TagView, TransactionView};
use crate::mt940::reader::{
    apply_tag, decode_statement, decode_tags, empty_draft, narrative_with, with_narrative, Draft,
};
use crate::mt940::retokenize::{all_safe, is_safe_body, is_safe_tag};
use crate::mt940::rows::lemma_rows_of_plain;
use crate::mt940::transaction::decode_transaction;
use crate::text::{has_no, lemma_has_no_concat};

verus! {

/// `code` is one of the codes that set a field of the statement or add a
/// balance or a transaction.
pub open spec fn is_known_code(code: Seq<char>) -> bool {
    ||| code == seq!['2', '0']
    ||| code == seq!['2', '1']
    ||| code == seq!['2', '5']
    ||| code == seq!['2', '8']
    ||| code == seq!['2', '8', 'C']
    ||| code == seq!['6', '0', 'F']
    ||| code == seq!['6', '0', 'M']
    ||| code == seq!['6', '2', 'F']
    ||| code == seq!['6', '2', 'M']
    ||| code == seq!['6', '4']
    ||| code == seq!['6', '5']
    ||| code == seq!['6', '1']
}

/// A tag that goes to the other tags wherever it stands before the first
/// transaction.
pub open spec fn is_other_tag(t: TagView) -> bool {
    is_safe_tag(t) && !is_known_code(t.code)
}

/// All tags are other tags.
pub open spec fn all_other(tags: Seq<TagView>) -> bool {
    forall|k: int| 0 <= k < tags.len() ==> is_other_tag(#[trigger] tags[k])
}

/// A balance whose raw text is a safe body and decodes into the balance.
pub open spec fn is_reread_balance(b: BalanceView, role: BalanceRole) -> bool {
    is_safe_body(b.raw) && decode_balance(b.raw, role) == Ok::<BalanceView, Fault>(b)
}

/// The optional balance is read back, if there is one.
pub open spec fn is_reread_optional(o: Option<BalanceView>, role: BalanceRole) -> bool {
    match o {
        Some(b) => is_reread_balance(b, role),
        None => true,
    }
}

/// All balances are read back in the role.
pub open spec fn all_reread_balances(bs: Seq<BalanceView>, role: BalanceRole) -> bool {
    forall|k: int| 0 <= k < bs.len() ==> is_reread_balance(#[trigger] bs[k], role)
}

/// A transaction as its line alone decodes: without narrative.
pub open spec fn without_narrative(t: TransactionView) -> TransactionView {
    TransactionView { narrative: None, ..t }
}

/// A narrative that can be written: without carriage return and closing
/// brace.
pub open spec fn is_clean_narrative(o: Option<Seq<char>>) -> bool {
    match o {
        Some(n) => has_no(n, '\r') && has_no(n, '}'),
        None => true,
    }
}

/// A transaction whose raw text is a safe body and decodes into the
/// transaction, and whose narrative can be written.
pub open spec fn is_reread_transaction(t: TransactionView) -> bool {
    &&& is_safe_body(t.raw)
    &&& decode_transaction(t.raw) == Ok::<TransactionView, Fault>(without_narrative(t))
    &&& is_clean_narrative(t.narrative)
}

/// All transactions are read back.
pub open spec fn all_reread_transactions(ts: Seq<TransactionView>) -> bool {
    forall|k: int| 0 <= k < ts.len() ==> is_reread_transaction(#[trigger] ts[k])
}

/// The optional text is a safe body, if there is one.
pub open spec fn is_safe_optional(o: Option<Seq<char>>) -> bool {
    match o {
        Some(b) => is_safe_body(b),
        None => true,
    }
}

impl StatementView {
    /// The statement is read back as it is written: its texts are safe
    /// bodies, its other tags are other tags, and its balances and
    /// transactions are what their raw texts decode into.
    pub open spec fn is_rereadable(self) -> bool {
        &&& is_safe_body(self.reference)
        &&& is_safe_optional(self.statement_id)
        &&& is_safe_body(self.account)
        &&& is_safe_body(self.statement_number)
        &&& all_other(self.extras)
        &&& is_reread_balance(self.opening_balance, BalanceRole::Opening)
        &&& is_reread_balance(self.closing_balance, BalanceRole::Closing)
        &&& is_reread_optional(self.closing_available, BalanceRole::ClosingAvailable)
        &&& all_reread_balances(self.forward_available, BalanceRole::ForwardAvailable)
        &&& all_reread_transactions(self.transactions)
    }
}

/// What a draft holds so far is read back as it is written.
pub open spec fn draft_is_rereadable(d: Draft) -> bool {
    &&& is_safe_body(d.reference)
    &&& is_safe_optional(d.statement_id)
    &&& is_safe_body(d.account)
    &&& is_safe_body(d.statement_number)
    &&& all_other(d.extras)
    &&& is_reread_optional(d.opening, BalanceRole::Opening)
    &&& is_reread_optional(d.closing, BalanceRole::Closing)
    &&& is_reread_optional(d.closing_available, BalanceRole::ClosingAvailable)
    &&& all_reread_balances(d.forward_available, BalanceRole::ForwardAvailable)
    &&& all_reread_transactions(d.transactions)
}

/// The empty text is a safe body.
pub proof fn lemma_empty_is_safe_body()
    ensures
        is_safe_body(Seq::<char>::empty()),
{
    lemma_rows_of_plain(Seq::<char>::empty());
}

/// What a safe body decodes into as a balance is read back.
pub proof fn lemma_decoded_balance_is_reread(body: Seq<char>, role: BalanceRole)
    requires
        is_safe_body(body),
        decode_balance(body, role) is Ok,
    ensures
        is_reread_balance(decode_balance(body, role)->Ok_0, role),
{
    lemma_decoded_balance_is_well_formed(body, role);
}

/// A narrative that can be written, with one more safe body under it, can be
/// written.
pub proof fn lemma_narrative_with_is_clean(old_text: Option<Seq<char>>, body: Seq<char>)
    requires
        is_clean_narrative(old_text),
        is_safe_body(body),
    ensures
        is_clean_narrative(Some(narrative_with(old_text, body))),
{
    match old_text {
        Some(n) => {
            let feed = seq!['\n'];
            assert(has_no(feed, '\r') && has_no(feed, '}'));
            lemma_has_no_concat(n, feed, '\r');
            lemma_has_no_concat(n + feed, body, '\r');
            lemma_has_no_concat(n, feed, '}');
            lemma_has_no_concat(n + feed, body, '}');
        },
        None => {},
    }
}

/// One more safe tag leaves a draft read back as it is written.
pub proof fn lemma_apply_tag_rereadable(d: Draft, t: TagView)
    requires
        draft_is_rereadable(d),
        is_safe_tag(t),
        apply_tag(d, t) is Ok,
    ensures
        draft_is_rereadable(apply_tag(d, t)->Ok_0),
{
    let next = apply_tag(d, t)->Ok_0;
    if t.code == seq!['2', '0'] || t.code == seq!['2', '1'] || t.code == seq!['2', '5'] || t.code
        == seq!['2', '8'] || t.code == seq!['2', '8', 'C'] {
    } else if t.code == seq!['6', '0', 'F'] || t.code == seq!['6', '0', 'M'] {
        lemma_decoded_balance_is_reread(t.body, BalanceRole::Opening);
    } else if t.code == seq!['6', '2', 'F'] || t.code == seq!['6', '2', 'M'] {
        lemma_decoded_balance_is_reread(t.body, BalanceRole::Closing);
    } else if t.code == seq!['6', '4'] {
        lemma_decoded_balance_is_reread(t.body, BalanceRole::ClosingAvailable);
    } else if t.code == seq!['6', '5'] {
        lemma_decoded_balance_is_reread(t.body, BalanceRole::ForwardAvailable);
        let b = decode_balance(t.body, BalanceRole::ForwardAvailable)->Ok_0;
        assert forall|k: int| 0 <= k < next.forward_available.len() implies is_reread_balance(
            #[trigger] next.forward_available[k],
            BalanceRole::ForwardAvailable,
        ) by {
            if k < d.forward_available.len() {
                assert(next.forward_available[k] == d.forward_available[k]);
            }
        }
    } else if t.code == seq!['6', '1'] {
        let x = decode_transaction(t.body)->Ok_0;
        assert(x.raw == t.body);
        assert(without_narrative(x) == x);
        assert forall|k: int| 0 <= k < next.transactions.len() implies is_reread_transaction(
            #[trigger] next.transactions[k],
        ) by {
            if k < d.transactions.len() {
                assert(next.transactions[k] == d.transactions[k]);
            }
        }
    } else if t.code == seq!['8', '6'] && d.transactions.len() > 0 {
        let last = d.transactions.last();
        assert(is_reread_transaction(last));
        lemma_narrative_with_is_clean(last.narrative, t.body);
        let changed = with_narrative(last, t.body);
        assert(without_narrative(changed) == without_narrative(last));
        assert forall|k: int| 0 <= k < next.transactions.len() implies is_reread_transaction(
            #[trigger] next.transactions[k],
        ) by {
            if k < d.transactions.len() - 1 {
                assert(next.transactions[k] == d.transactions[k]);
            }
        }
    } else {
        assert(!is_known_code(t.code));
        assert forall|k: int| 0 <= k < next.extras.len() implies is_other_tag(
            #[trigger] next.extras[k],
        ) by {
            if k < d.extras.len() {
                assert(next.extras[k] == d.extras[k]);
            }
        }
    }
}

/// The safe tags from `i` on leave a draft read back as it is written.
pub proof fn lemma_decode_tags_rereadable(tags: Seq<TagView>, i: int, d: Draft)
    requires
        all_safe(tags),
        0 <= i <= tags.len(),
        draft_is_rereadable(d),
        decode_tags(tags, i, d) is Ok,
    ensures
        draft_is_rereadable(decode_tags(tags, i, d)->Ok_0),
    decreases tags.len() - i,
{
    if i < tags.len() {
        assert(is_safe_tag(tags[i]));
        lemma_apply_tag_rereadable(d, tags[i]);
        lemma_decode_tags_rereadable(tags, i + 1, apply_tag(d, tags[i])->Ok_0);
    }
}

/// The statement that safe tags decode into is read back as it is written.
pub proof fn lemma_decoded_statement_is_rereadable(tags: Seq<TagView>)
    requires
        all_safe(tags),
        decode_statement(tags) is Ok,
    ensures
        (decode_statement(tags)->Ok_0).is_rereadable(),
{
    lemma_empty_is_safe_body();
    lemma_decode_tags_rereadable(tags, 0, empty_draft());
}

} // verus!
