//! The tags that a statement is written as decode into the statement.

use vstd::prelude::*;
use crate::errors::{BalanceRole, Fault};
use crate::mt940::format::{BalanceView, StatementView, TagView, TransactionView};
use crate::mt940::reader::{
    apply_tag, decode_statement, decode_tags, empty_draft, finish, with_narrative, Draft,
};
use crate::mt940::rereadable::{
    all_other, all_reread_balances, all_reread_transactions, is_known_code, is_other_tag,
    is_reread_balance, is_reread_transaction, is_safe_optional, without_narrative,
};
use crate::mt940::retokenize::{all_safe, is_safe_body, is_safe_tag, is_tag_code};
use crate::mt940::tokenizer::is_continuation;
use crate::mt940::rows::{
    join_rows, lemma_join_prefix, lemma_join_rows, lemma_rows_are_plain, lemma_rows_hold_no,
    rows_of,
};
use crate::mt940::safe_tags::{
    all_clean, is_clean_line, lemma_all_safe_concat, lemma_all_safe_push,
    lemma_clean_line_is_safe_body, lemma_continued_body_is_safe,
};
use crate::mt940::writer::{
    balance_tags, head_tags, lemma_statement_parts, line_tags, narrative_bodies, narrative_lines,
    narrative_tags, opt_raw, optional_tag, statement_tags, tags_of_bodies, tail_tags, text_tag,
    transaction_tags,
};
use crate::text::has_no;

verus! {

/// The codes under which a statement is written are tag codes.
pub proof fn lemma_written_codes()
    ensures
        is_tag_code(seq!['2', '0']),
        is_tag_code(seq!['2', '1']),
        is_tag_code(seq!['2', '5']),
        is_tag_code(seq!['2', '8', 'C']),
        is_tag_code(seq!['6', '0', 'F']),
        is_tag_code(seq!['6', '1']),
        is_tag_code(seq!['6', '2', 'F']),
        is_tag_code(seq!['6', '4']),
        is_tag_code(seq!['6', '5']),
        is_tag_code(seq!['8', '6']),
{
    assert(seq!['2', '0'][0] == '2' && seq!['2', '0'][1] == '0');
    assert(seq!['2', '1'][0] == '2' && seq!['2', '1'][1] == '1');
    assert(seq!['2', '5'][0] == '2' && seq!['2', '5'][1] == '5');
    assert(seq!['2', '8', 'C'][0] == '2' && seq!['2', '8', 'C'][1] == '8' && seq![
        '2',
        '8',
        'C',
    ][2] == 'C');
    assert(seq!['6', '0', 'F'][0] == '6' && seq!['6', '0', 'F'][1] == '0' && seq![
        '6',
        '0',
        'F',
    ][2] == 'F');
    assert(seq!['6', '1'][0] == '6' && seq!['6', '1'][1] == '1');
    assert(seq!['6', '2', 'F'][0] == '6' && seq!['6', '2', 'F'][1] == '2' && seq![
        '6',
        '2',
        'F',
    ][2] == 'F');
    assert(seq!['6', '4'][0] == '6' && seq!['6', '4'][1] == '4');
    assert(seq!['6', '5'][0] == '6' && seq!['6', '5'][1] == '5');
    assert(seq!['8', '6'][0] == '8' && seq!['8', '6'][1] == '6');
}

/// The tags of an optional safe body are safe.
pub proof fn lemma_optional_tag_is_safe(code: Seq<char>, body: Option<Seq<char>>)
    requires
        is_tag_code(code),
        is_safe_optional(body),
    ensures
        all_safe(optional_tag(code, body)),
{
}

/// The bodies that clean lines are written as are safe bodies.
pub proof fn lemma_bodies_are_safe(lines: Seq<Seq<char>>, k: int)
    requires
        all_clean(lines),
        0 <= k <= lines.len(),
    ensures
        forall|i: int|
            0 <= i < narrative_bodies(lines, k).len() ==> is_safe_body(
                #[trigger] narrative_bodies(lines, k)[i],
            ),
    decreases k,
{
    if k <= 0 {
    } else if k == 1 {
        assert(is_clean_line(lines[0]));
        lemma_clean_line_is_safe_body(lines[0]);
    } else {
        lemma_bodies_are_safe(lines, k - 1);
        let before = narrative_bodies(lines, k - 1);
        let after = narrative_bodies(lines, k);
        let line = lines[k - 1];
        assert(is_clean_line(line));
        if is_continuation(line) && before.len() > 0 {
            lemma_continued_body_is_safe(before.last(), line);
            assert forall|i: int| 0 <= i < after.len() implies is_safe_body(
                #[trigger] after[i],
            ) by {
                if i < before.len() - 1 {
                    assert(after[i] == before[i]);
                }
            }
        } else {
            lemma_clean_line_is_safe_body(line);
            assert forall|i: int| 0 <= i < after.len() implies is_safe_body(
                #[trigger] after[i],
            ) by {
                if i < before.len() {
                    assert(after[i] == before[i]);
                }
            }
        }
    }
}

/// The narrative tags of a narrative that can be written are safe tags.
pub proof fn lemma_narrative_tags_are_safe(n: Seq<char>)
    requires
        has_no(n, '\r'),
        has_no(n, '}'),
    ensures
        all_safe(narrative_tags(narrative_lines(n))),
{
    lemma_written_codes();
    lemma_rows_are_plain(n);
    lemma_rows_hold_no(n, '\r');
    lemma_rows_hold_no(n, '}');
    let lines = narrative_lines(n);
    assert(lines == rows_of(n));
    assert(all_clean(lines)) by {
        assert forall|k: int| 0 <= k < lines.len() implies is_clean_line(#[trigger] lines[k]) by {
            assert(has_no(lines[k], '\n'));
            assert(has_no(lines[k], '\r'));
            assert(has_no(lines[k], '}'));
        }
    }
    lemma_bodies_are_safe(lines, lines.len() as int);
    let bodies = narrative_bodies(lines, lines.len() as int);
    let tags = narrative_tags(lines);
    assert forall|k: int| 0 <= k < tags.len() implies is_safe_tag(#[trigger] tags[k]) by {
        assert(is_safe_body(bodies[k]));
    }
}

/// The bodies that the first `k` lines are written as, joined by line feeds,
/// are those lines joined by line feeds.
pub proof fn lemma_join_bodies(lines: Seq<Seq<char>>, k: int)
    requires
        1 <= k <= lines.len(),
    ensures
        narrative_bodies(lines, k).len() >= 1,
        join_rows(narrative_bodies(lines, k), narrative_bodies(lines, k).len() as int)
            == join_rows(lines, k),
    decreases k,
{
    if k > 1 {
        lemma_join_bodies(lines, k - 1);
        let before = narrative_bodies(lines, k - 1);
        let after = narrative_bodies(lines, k);
        let line = lines[k - 1];
        let m = before.len() as int;
        if is_continuation(line) && before.len() > 0 {
            if m == 1 {
            } else {
                lemma_join_prefix(after, before, m - 1);
                assert(join_rows(after, m) =~= join_rows(before, m) + seq!['\n'] + line);
            }
        } else {
            lemma_join_prefix(after, before, m);
        }
    }
}

/// The tags of a transaction that is read back are safe.
pub proof fn lemma_line_tags_are_safe(t: TransactionView)
    requires
        is_reread_transaction(t),
    ensures
        all_safe(line_tags(t)),
{
    lemma_written_codes();
    let first = seq![text_tag(seq!['6', '1'], t.raw)];
    assert(all_safe(first));
    match t.narrative {
        Some(n) => {
            lemma_narrative_tags_are_safe(n);
            lemma_all_safe_concat(first, narrative_tags(narrative_lines(n)));
        },
        None => {
            lemma_all_safe_concat(first, Seq::empty());
        },
    }
}

/// The tags of transactions that are read back are safe.
pub proof fn lemma_transaction_tags_are_safe(ts: Seq<TransactionView>)
    requires
        all_reread_transactions(ts),
    ensures
        all_safe(transaction_tags(ts)),
    decreases ts.len(),
{
    if ts.len() > 0 {
        let before = ts.drop_last();
        assert(all_reread_transactions(before)) by {
            assert forall|k: int| 0 <= k < before.len() implies is_reread_transaction(
                #[trigger] before[k],
            ) by {
                assert(before[k] == ts[k]);
            }
        }
        lemma_transaction_tags_are_safe(before);
        assert(is_reread_transaction(ts.last()));
        lemma_line_tags_are_safe(ts.last());
        lemma_all_safe_concat(transaction_tags(before), line_tags(ts.last()));
    }
}

/// The tags of balances that are read back are safe.
pub proof fn lemma_balance_tags_are_safe(code: Seq<char>, bs: Seq<BalanceView>, role: BalanceRole)
    requires
        is_tag_code(code),
        all_reread_balances(bs, role),
    ensures
        all_safe(balance_tags(code, bs)),
    decreases bs.len(),
{
    if bs.len() > 0 {
        let before = bs.drop_last();
        assert(all_reread_balances(before, role)) by {
            assert forall|k: int| 0 <= k < before.len() implies is_reread_balance(
                #[trigger] before[k],
                role,
            ) by {
                assert(before[k] == bs[k]);
            }
        }
        lemma_balance_tags_are_safe(code, before, role);
        assert(is_reread_balance(bs.last(), role));
        lemma_all_safe_push(balance_tags(code, before), text_tag(code, bs.last().raw));
    }
}

/// The tags that a statement is written as are safe, where the statement is
/// read back as it is written.
pub proof fn lemma_statement_tags_are_safe(s: StatementView)
    requires
        s.is_rereadable(),
    ensures
        all_safe(statement_tags(s)),
{
    lemma_written_codes();
    lemma_statement_parts(s);
    let t20 = seq![text_tag(seq!['2', '0'], s.reference)];
    let t21 = optional_tag(seq!['2', '1'], s.statement_id);
    let t25 = seq![
        text_tag(seq!['2', '5'], s.account),
        text_tag(seq!['2', '8', 'C'], s.statement_number),
    ];
    assert(all_safe(t20));
    lemma_optional_tag_is_safe(seq!['2', '1'], s.statement_id);
    assert(all_safe(t25));
    lemma_all_safe_concat(t20, t21);
    lemma_all_safe_concat(t20 + t21, t25);
    assert(all_safe(head_tags(s)));
    assert(all_safe(s.extras)) by {
        assert forall|k: int| 0 <= k < s.extras.len() implies is_safe_tag(
            #[trigger] s.extras[k],
        ) by {
            assert(is_other_tag(s.extras[k]));
        }
    }
    let opening = seq![text_tag(seq!['6', '0', 'F'], s.opening_balance.raw)];
    assert(all_safe(opening));
    lemma_transaction_tags_are_safe(s.transactions);
    let t62 = seq![text_tag(seq!['6', '2', 'F'], s.closing_balance.raw)];
    assert(all_safe(t62));
    let t64 = optional_tag(seq!['6', '4'], opt_raw(s.closing_available));
    assert(all_safe(t64));
    lemma_balance_tags_are_safe(seq!['6', '5'], s.forward_available, BalanceRole::ForwardAvailable);
    lemma_all_safe_concat(t62, t64);
    lemma_all_safe_concat(t62 + t64, balance_tags(seq!['6', '5'], s.forward_available));
    assert(all_safe(tail_tags(s)));
    lemma_all_safe_concat(head_tags(s), s.extras);
    lemma_all_safe_concat(head_tags(s) + s.extras, opening);
    lemma_all_safe_concat(head_tags(s) + s.extras + opening, transaction_tags(s.transactions));
    lemma_all_safe_concat(
        head_tags(s) + s.extras + opening + transaction_tags(s.transactions),
        tail_tags(s),
    );
}

/// Decoding tags behind other tags, from the seam on, is decoding the
/// second alone.
pub proof fn lemma_decode_shift(a: Seq<TagView>, b: Seq<TagView>, j: int, d: Draft)
    requires
        0 <= j <= b.len(),
    ensures
        decode_tags(a + b, a.len() + j, d) == decode_tags(b, j, d),
    decreases b.len() - j,
{
    if j < b.len() {
        assert((a + b)[a.len() + j] == b[j]);
        match apply_tag(d, b[j]) {
            Ok(next) => {
                lemma_decode_shift(a, b, j + 1, next);
            },
            Err(_) => {},
        }
    }
}

/// Decoding tags behind other tags is decoding the first and then the
/// second.
pub proof fn lemma_decode_concat(a: Seq<TagView>, b: Seq<TagView>, i: int, d: Draft)
    requires
        0 <= i <= a.len(),
    ensures
        decode_tags(a + b, i, d) == match decode_tags(a, i, d) {
            Ok(m) => decode_tags(b, 0, m),
            Err(f) => Err(f),
        },
    decreases a.len() - i,
{
    if i < a.len() {
        assert((a + b)[i] == a[i]);
        match apply_tag(d, a[i]) {
            Ok(next) => {
                lemma_decode_concat(a, b, i + 1, next);
            },
            Err(_) => {},
        }
    } else {
        lemma_decode_shift(a, b, 0, d);
    }
}

/// Decoding one more tag is decoding the others and applying that tag.
pub proof fn lemma_decode_push(a: Seq<TagView>, t: TagView, d: Draft)
    ensures
        decode_tags(a.push(t), 0, d) == match decode_tags(a, 0, d) {
            Ok(m) => apply_tag(m, t),
            Err(f) => Err(f),
        },
{
    assert(a.push(t) =~= a + seq![t]);
    lemma_decode_concat(a, seq![t], 0, d);
    match decode_tags(a, 0, d) {
        Ok(m) => {
            lemma_decode_one(t, m);
        },
        Err(_) => {},
    }
}

/// Decoding one tag is applying it.
pub proof fn lemma_decode_one(t: TagView, d: Draft)
    ensures
        decode_tags(seq![t], 0, d) == apply_tag(d, t),
{
    let one = seq![t];
    assert(one[0] == t);
    match apply_tag(d, t) {
        Ok(next) => {
            assert(decode_tags(one, 1, next) == Ok::<Draft, Fault>(next));
        },
        Err(_) => {},
    }
}

/// The code of a narrative tag and the codes under which a statement is
/// written are told apart by the decoder.
pub proof fn lemma_codes_differ()
    ensures
        !is_known_code(seq!['8', '6']),
        seq!['2', '0'] != seq!['2', '1'],
        seq!['2', '5'] != seq!['2', '0'],
        seq!['2', '5'] != seq!['2', '1'],
        seq!['6', '1'] != seq!['6', '4'],
        seq!['6', '1'] != seq!['6', '5'],
        seq!['6', '4'] != seq!['6', '5'],
        seq!['6', '0', 'F'] != seq!['2', '8', 'C'],
        seq!['6', '2', 'F'] != seq!['6', '0', 'F'],
        seq!['6', '2', 'F'] != seq!['6', '0', 'M'],
        seq!['6', '2', 'F'] != seq!['2', '8', 'C'],
{
    let n = seq!['8', '6'];
    assert(n[0] == '8' && n.len() == 2);
    assert(seq!['2', '0'][0] == '2' && seq!['2', '0'][1] == '0');
    assert(seq!['2', '1'][0] == '2' && seq!['2', '1'][1] == '1');
    assert(seq!['2', '5'][0] == '2' && seq!['2', '5'][1] == '5');
    assert(seq!['2', '8'][0] == '2');
    assert(seq!['6', '1'][0] == '6' && seq!['6', '1'][1] == '1');
    assert(seq!['6', '4'][0] == '6' && seq!['6', '4'][1] == '4');
    assert(seq!['6', '5'][0] == '6' && seq!['6', '5'][1] == '5');
    assert(seq!['2', '8', 'C'].len() == 3 && seq!['2', '8', 'C'][0] == '2');
    assert(seq!['6', '0', 'F'].len() == 3 && seq!['6', '0', 'F'][0] == '6' && seq![
        '6',
        '0',
        'F',
    ][1] == '0');
    assert(seq!['6', '0', 'M'].len() == 3 && seq!['6', '0', 'M'][1] == '0');
    assert(seq!['6', '2', 'F'].len() == 3 && seq!['6', '2', 'F'][0] == '6' && seq![
        '6',
        '2',
        'F',
    ][1] == '2');
    assert(seq!['6', '2', 'M'].len() == 3);
}

/// Other tags, decoded before any transaction, go behind the other tags of
/// the draft.
pub proof fn lemma_decode_others(ex: Seq<TagView>, d: Draft)
    requires
        all_other(ex),
        d.transactions.len() == 0,
    ensures
        decode_tags(ex, 0, d) == Ok::<Draft, Fault>(Draft { extras: d.extras + ex, ..d }),
    decreases ex.len(),
{
    if ex.len() == 0 {
        assert(d.extras + ex =~= d.extras);
    } else {
        let before = ex.drop_last();
        let t = ex.last();
        assert(all_other(before)) by {
            assert forall|k: int| 0 <= k < before.len() implies is_other_tag(
                #[trigger] before[k],
            ) by {
                assert(before[k] == ex[k]);
            }
        }
        lemma_decode_others(before, d);
        assert(ex =~= before.push(t));
        lemma_decode_push(before, t, d);
        assert(is_other_tag(t));
        let m = Draft { extras: d.extras + before, ..d };
        assert(apply_tag(m, t) == Ok::<Draft, Fault>(Draft { extras: m.extras.push(t), ..m }));
        assert(m.extras.push(t) =~= d.extras + ex);
    }
}

/// The last transaction of a draft with another narrative.
pub open spec fn with_last_narrative(d: Draft, n: Seq<char>) -> Draft {
    Draft {
        transactions: d.transactions.update(
            d.transactions.len() - 1,
            TransactionView { narrative: Some(n), ..d.transactions.last() },
        ),
        ..d
    }
}

/// The first `k` narrative tags of the given bodies, decoded behind a
/// transaction without narrative, give it the first `k` bodies, joined by
/// line feeds, as narrative.
pub proof fn lemma_decode_narrative(bodies: Seq<Seq<char>>, k: int, d: Draft)
    requires
        d.transactions.len() > 0,
        d.transactions.last().narrative is None,
        1 <= k <= bodies.len(),
    ensures
        decode_tags(tags_of_bodies(bodies).subrange(0, k), 0, d) == Ok::<Draft, Fault>(
            with_last_narrative(d, join_rows(bodies, k)),
        ),
    decreases k,
{
    lemma_codes_differ();
    let tags = tags_of_bodies(bodies);
    let t = tags[k - 1];
    assert(t == text_tag(seq!['8', '6'], bodies[k - 1]));
    if k == 1 {
        assert(tags.subrange(0, 1) =~= seq![t]);
        lemma_decode_one(t, d);
        assert(with_narrative(d.transactions.last(), t.body) == (TransactionView {
            narrative: Some(bodies[0]),
            ..d.transactions.last()
        }));
    } else {
        lemma_decode_narrative(bodies, k - 1, d);
        assert(tags.subrange(0, k) =~= tags.subrange(0, k - 1).push(t));
        lemma_decode_push(tags.subrange(0, k - 1), t, d);
        let m = with_last_narrative(d, join_rows(bodies, k - 1));
        assert(m.transactions.len() == d.transactions.len());
        assert(m.transactions.last().narrative == Some(join_rows(bodies, k - 1)));
        let changed = with_narrative(m.transactions.last(), t.body);
        assert(changed == (TransactionView {
            narrative: Some(join_rows(bodies, k)),
            ..d.transactions.last()
        }));
        assert(m.transactions.update(m.transactions.len() - 1, changed) =~= d.transactions.update(
            d.transactions.len() - 1,
            changed,
        ));
    }
}

/// The tags of a transaction that is read back decode into the
/// transaction, behind those of the draft.
pub proof fn lemma_decode_line_tags(t: TransactionView, d: Draft)
    requires
        is_reread_transaction(t),
    ensures
        decode_tags(line_tags(t), 0, d) == Ok::<Draft, Fault>(
            Draft { transactions: d.transactions.push(t), ..d },
        ),
{
    lemma_codes_differ();
    let first = text_tag(seq!['6', '1'], t.raw);
    let d1 = Draft { transactions: d.transactions.push(without_narrative(t)), ..d };
    assert(seq!['6', '1'].len() == 2);
    assert(seq!['6', '1'][0] == '6');
    assert(seq!['2', '0'][0] == '2');
    assert(seq!['2', '1'][0] == '2');
    assert(seq!['2', '5'][0] == '2');
    assert(seq!['2', '8'][0] == '2');
    assert(seq!['2', '8', 'C'].len() == 3);
    assert(seq!['6', '0', 'F'].len() == 3);
    assert(seq!['6', '0', 'M'].len() == 3);
    assert(seq!['6', '2', 'F'].len() == 3);
    assert(seq!['6', '2', 'M'].len() == 3);
    assert(apply_tag(d, first) == Ok::<Draft, Fault>(d1));
    lemma_decode_one(first, d);
    let rest: Seq<TagView> = match t.narrative {
        Some(n) => narrative_tags(narrative_lines(n)),
        None => Seq::empty(),
    };
    assert(line_tags(t) == seq![first] + rest);
    lemma_decode_concat(seq![first], rest, 0, d);
    match t.narrative {
        Some(n) => {
            let lines = narrative_lines(n);
            assert(lines == rows_of(n));
            lemma_join_rows(n);
            lemma_join_bodies(lines, lines.len() as int);
            let bodies = narrative_bodies(lines, lines.len() as int);
            let len = bodies.len() as int;
            assert(rest == tags_of_bodies(bodies));
            assert(rest.subrange(0, len) =~= rest);
            lemma_decode_narrative(bodies, len, d1);
            let last = TransactionView { narrative: Some(n), ..without_narrative(t) };
            assert(last == t);
            assert(d1.transactions.update(d1.transactions.len() - 1, t) =~= d.transactions.push(
                t,
            ));
        },
        None => {
            assert(without_narrative(t) == t);
        },
    }
}

/// The tags of transactions that are read back decode into the
/// transactions, behind those of the draft.
pub proof fn lemma_decode_transactions(ts: Seq<TransactionView>, d: Draft)
    requires
        all_reread_transactions(ts),
    ensures
        decode_tags(transaction_tags(ts), 0, d) == Ok::<Draft, Fault>(
            Draft { transactions: d.transactions + ts, ..d },
        ),
    decreases ts.len(),
{
    if ts.len() == 0 {
        assert(d.transactions + ts =~= d.transactions);
    } else {
        let before = ts.drop_last();
        let t = ts.last();
        assert(all_reread_transactions(before)) by {
            assert forall|k: int| 0 <= k < before.len() implies is_reread_transaction(
                #[trigger] before[k],
            ) by {
                assert(before[k] == ts[k]);
            }
        }
        lemma_decode_transactions(before, d);
        let m = Draft { transactions: d.transactions + before, ..d };
        lemma_decode_concat(transaction_tags(before), line_tags(t), 0, d);
        assert(is_reread_transaction(t));
        lemma_decode_line_tags(t, m);
        assert(m.transactions.push(t) =~= d.transactions + ts);
    }
}

/// The tags of forward available balances that are read back decode into
/// the balances, behind those of the draft.
pub proof fn lemma_decode_forward(bs: Seq<BalanceView>, d: Draft)
    requires
        all_reread_balances(bs, BalanceRole::ForwardAvailable),
    ensures
        decode_tags(balance_tags(seq!['6', '5'], bs), 0, d) == Ok::<Draft, Fault>(
            Draft { forward_available: d.forward_available + bs, ..d },
        ),
    decreases bs.len(),
{
    lemma_codes_differ();
    if bs.len() == 0 {
        assert(d.forward_available + bs =~= d.forward_available);
    } else {
        let before = bs.drop_last();
        let b = bs.last();
        assert(all_reread_balances(before, BalanceRole::ForwardAvailable)) by {
            assert forall|k: int| 0 <= k < before.len() implies is_reread_balance(
                #[trigger] before[k],
                BalanceRole::ForwardAvailable,
            ) by {
                assert(before[k] == bs[k]);
            }
        }
        lemma_decode_forward(before, d);
        let m = Draft { forward_available: d.forward_available + before, ..d };
        let t = text_tag(seq!['6', '5'], b.raw);
        lemma_decode_push(balance_tags(seq!['6', '5'], before), t, d);
        assert(is_reread_balance(b, BalanceRole::ForwardAvailable));
        assert(seq!['6', '5'].len() == 2);
        assert(seq!['6', '5'][0] == '6');
        assert(seq!['2', '0'][0] == '2');
        assert(seq!['2', '1'][0] == '2');
        assert(seq!['2', '5'][0] == '2');
        assert(seq!['2', '8'][0] == '2');
        assert(seq!['2', '8', 'C'].len() == 3);
        assert(seq!['6', '0', 'F'].len() == 3);
        assert(seq!['6', '0', 'M'].len() == 3);
        assert(seq!['6', '2', 'F'].len() == 3);
        assert(seq!['6', '2', 'M'].len() == 3);
        assert(apply_tag(m, t) == Ok::<Draft, Fault>(
            Draft { forward_available: m.forward_available.push(b), ..m },
        ));
        assert(m.forward_available.push(b) =~= d.forward_available + bs);
    }
}

/// The draft after the head of a statement.
pub open spec fn draft_after_head(s: StatementView) -> Draft {
    Draft {
        reference: s.reference,
        statement_id: s.statement_id,
        account: s.account,
        statement_number: s.statement_number,
        ..empty_draft()
    }
}

/// The head of a statement decodes into its four texts.
pub proof fn lemma_decode_head(s: StatementView)
    ensures
        decode_tags(head_tags(s), 0, empty_draft()) == Ok::<Draft, Fault>(draft_after_head(s)),
{
    lemma_codes_differ();
    let d0 = empty_draft();
    let t20 = text_tag(seq!['2', '0'], s.reference);
    let t25 = text_tag(seq!['2', '5'], s.account);
    let t28 = text_tag(seq!['2', '8', 'C'], s.statement_number);
    let mid = optional_tag(seq!['2', '1'], s.statement_id);
    let d1 = Draft { reference: s.reference, ..d0 };
    let d2 = Draft { statement_id: s.statement_id, ..d1 };
    let d3 = Draft { account: s.account, ..d2 };
    lemma_decode_one(t20, d0);
    assert(decode_tags(seq![t20], 0, d0) == Ok::<Draft, Fault>(d1));
    lemma_decode_concat(seq![t20], mid, 0, d0);
    match s.statement_id {
        Some(id) => {
            let t21 = text_tag(seq!['2', '1'], id);
            assert(mid =~= seq![t21]);
            lemma_decode_one(t21, d1);
            assert(apply_tag(d1, t21) == Ok::<Draft, Fault>(d2));
        },
        None => {
            assert(d2 == d1);
        },
    }
    assert(decode_tags(seq![t20] + mid, 0, d0) == Ok::<Draft, Fault>(d2));
    lemma_decode_push(seq![t20] + mid, t25, d0);
    assert(apply_tag(d2, t25) == Ok::<Draft, Fault>(d3));
    lemma_decode_push((seq![t20] + mid).push(t25), t28, d0);
    assert(seq!['2', '8', 'C'].len() == 3);
    assert(seq!['2', '0'].len() == 2);
    assert(seq!['2', '1'].len() == 2);
    assert(seq!['2', '5'].len() == 2);
    assert(apply_tag(d3, t28) == Ok::<Draft, Fault>(draft_after_head(s)));
    assert(head_tags(s) =~= (seq![t20] + mid).push(t25).push(t28));
}

/// The tail of a statement that is read back decodes into its closing,
/// closing available and forward available balances.
pub proof fn lemma_decode_tail(s: StatementView, d: Draft)
    requires
        s.is_rereadable(),
    ensures
        decode_tags(tail_tags(s), 0, d) == Ok::<Draft, Fault>(
            Draft {
                closing: Some(s.closing_balance),
                closing_available: match s.closing_available {
                    Some(b) => Some(b),
                    None => d.closing_available,
                },
                forward_available: d.forward_available + s.forward_available,
                ..d
            },
        ),
{
    lemma_codes_differ();
    let t62 = text_tag(seq!['6', '2', 'F'], s.closing_balance.raw);
    let mid = optional_tag(seq!['6', '4'], opt_raw(s.closing_available));
    let fwd = balance_tags(seq!['6', '5'], s.forward_available);
    let d1 = Draft { closing: Some(s.closing_balance), ..d };
    assert(seq!['6', '2', 'F'].len() == 3);
    assert(seq!['2', '0'].len() == 2);
    assert(seq!['2', '1'].len() == 2);
    assert(seq!['2', '5'].len() == 2);
    assert(seq!['2', '8'].len() == 2);
    assert(is_reread_balance(s.closing_balance, BalanceRole::Closing));
    assert(apply_tag(d, t62) == Ok::<Draft, Fault>(d1));
    lemma_decode_one(t62, d);
    lemma_decode_concat(seq![t62], mid, 0, d);
    let d2 = Draft {
        closing_available: match s.closing_available {
            Some(b) => Some(b),
            None => d.closing_available,
        },
        ..d1
    };
    match s.closing_available {
        Some(b) => {
            let t64 = text_tag(seq!['6', '4'], b.raw);
            assert(mid =~= seq![t64]);
            lemma_decode_one(t64, d1);
            assert(is_reread_balance(b, BalanceRole::ClosingAvailable));
            assert(seq!['6', '4'].len() == 2);
            assert(seq!['6', '4'][0] == '6');
            assert(seq!['2', '0'][0] == '2');
            assert(seq!['2', '1'][0] == '2');
            assert(seq!['2', '5'][0] == '2');
            assert(seq!['2', '8'][0] == '2');
            assert(seq!['2', '8', 'C'].len() == 3);
            assert(seq!['6', '0', 'F'].len() == 3);
            assert(seq!['6', '0', 'M'].len() == 3);
            assert(seq!['6', '2', 'M'].len() == 3);
            assert(apply_tag(d1, t64) == Ok::<Draft, Fault>(d2));
        },
        None => {
            assert(d2 == d1);
        },
    }
    assert(decode_tags(seq![t62] + mid, 0, d) == Ok::<Draft, Fault>(d2));
    lemma_decode_concat(seq![t62] + mid, fwd, 0, d);
    lemma_decode_forward(s.forward_available, d2);
}

/// The tags that a statement is written as decode into the statement, where
/// the statement is read back as it is written.
pub proof fn lemma_statement_tags_decode(s: StatementView)
    requires
        s.is_rereadable(),
    ensures
        decode_statement(statement_tags(s)) == Ok::<StatementView, Fault>(s),
{
    lemma_codes_differ();
    lemma_statement_parts(s);
    let d0 = empty_draft();
    let head = head_tags(s);
    let opening = text_tag(seq!['6', '0', 'F'], s.opening_balance.raw);
    let lines = transaction_tags(s.transactions);
    let tail = tail_tags(s);
    lemma_decode_head(s);
    let d1 = draft_after_head(s);
    lemma_decode_concat(head, s.extras, 0, d0);
    lemma_decode_others(s.extras, d1);
    let d2 = Draft { extras: d1.extras + s.extras, ..d1 };
    assert(d1.extras + s.extras =~= s.extras);
    assert(decode_tags(head + s.extras, 0, d0) == Ok::<Draft, Fault>(d2));
    lemma_decode_push(head + s.extras, opening, d0);
    assert((head + s.extras).push(opening) =~= head + s.extras + seq![opening]);
    let d3 = Draft { opening: Some(s.opening_balance), ..d2 };
    assert(seq!['6', '0', 'F'].len() == 3);
    assert(seq!['2', '0'].len() == 2);
    assert(seq!['2', '1'].len() == 2);
    assert(seq!['2', '5'].len() == 2);
    assert(seq!['2', '8'].len() == 2);
    assert(is_reread_balance(s.opening_balance, BalanceRole::Opening));
    assert(apply_tag(d2, opening) == Ok::<Draft, Fault>(d3));
    lemma_decode_concat(head + s.extras + seq![opening], lines, 0, d0);
    lemma_decode_transactions(s.transactions, d3);
    let d4 = Draft { transactions: d3.transactions + s.transactions, ..d3 };
    assert(d3.transactions + s.transactions =~= s.transactions);
    lemma_decode_concat(head + s.extras + seq![opening] + lines, tail, 0, d0);
    lemma_decode_tail(s, d4);
    let d5 = decode_tags(tail, 0, d4)->Ok_0;
    assert(d5.forward_available =~= s.forward_available);
    assert(d5.closing_available == s.closing_available);
    assert(decode_tags(statement_tags(s), 0, d0) == Ok::<Draft, Fault>(d5));
    assert(finish(d5) == Ok::<StatementView, Fault>(s));
}

} // verus!
