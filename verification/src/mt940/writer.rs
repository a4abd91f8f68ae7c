//! The writer: a statement as tags, tags as text, and the envelope round
//! them.

use vstd::prelude::*;
use crate::errors::ParserError;
use crate::mt940::format::{
    BalanceView, Mt940, Mt940View, StatementBalance, StatementModel, StatementView, Tag, TagView,
    Transaction, TransactionView,
};
use vstd::slice::slice_subrange;
use crate::mt940::tokenizer::{continues_tag, is_continuation};
use crate::text::{chars_of, find_char, push_all, string_of};

verus! {

/// A tag as it is written: its code between colons, its body, a line break.
pub open spec fn tag_line(t: TagView) -> Seq<char> {
    seq![':'] + t.code + seq![':'] + t.body + seq!['\r', '\n']
}

/// The text of tags written one after the other.
pub open spec fn render_tags(tags: Seq<TagView>) -> Seq<char>
    decreases tags.len(),
{
    if tags.len() == 0 {
        Seq::empty()
    } else {
        render_tags(tags.drop_last()) + tag_line(tags.last())
    }
}

/// The tag of a text.
pub open spec fn text_tag(code: Seq<char>, body: Seq<char>) -> TagView {
    TagView { code, body }
}

/// The tag of an optional text: no tag where there is no text.
pub open spec fn optional_tag(code: Seq<char>, body: Option<Seq<char>>) -> Seq<TagView> {
    match body {
        Some(b) => seq![text_tag(code, b)],
        None => Seq::empty(),
    }
}

/// The pieces of `s` between its line feeds, from the piece that starts at
/// `start`, scanned from `i` on, behind the pieces `acc`. A text without a
/// line feed is one piece, and a text that ends in a line feed has an empty
/// last piece.
pub open spec fn pieces(s: Seq<char>, start: int, i: int, acc: Seq<Seq<char>>) -> Seq<Seq<char>>
    decreases s.len() - i,
{
    if i < 0 || i >= s.len() || start < 0 || start > i {
        if 0 <= start <= s.len() {
            acc.push(s.subrange(start, s.len() as int))
        } else {
            acc
        }
    } else if s[i] == '\n' {
        pieces(s, i + 1, i + 1, acc.push(s.subrange(start, i)))
    } else {
        pieces(s, start, i + 1, acc)
    }
}

/// The lines of a narrative.
pub open spec fn narrative_lines(n: Seq<char>) -> Seq<Seq<char>> {
    pieces(n, 0, 0, Seq::empty())
}

/// The bodies of the narrative tags that the first `k` lines of a narrative
/// are written as. The first line starts a body; each later line goes under
/// the body before it where it continues a tag, and starts a body of its own
/// where it would be read as a tag or as the end line.
pub open spec fn narrative_bodies(lines: Seq<Seq<char>>, k: int) -> Seq<Seq<char>>
    decreases k,
{
    if k <= 0 {
        Seq::empty()
    } else if k == 1 {
        seq![lines[0]]
    } else {
        let before = narrative_bodies(lines, k - 1);
        if is_continuation(lines[k - 1]) && before.len() > 0 {
            before.update(before.len() - 1, before.last() + seq!['\n'] + lines[k - 1])
        } else {
            before.push(lines[k - 1])
        }
    }
}

/// One narrative tag for each body.
pub open spec fn tags_of_bodies(bodies: Seq<Seq<char>>) -> Seq<TagView> {
    Seq::new(bodies.len(), |k: int| text_tag(seq!['8', '6'], bodies[k]))
}

/// The narrative tags that the lines of a narrative are written as.
pub open spec fn narrative_tags(lines: Seq<Seq<char>>) -> Seq<TagView> {
    tags_of_bodies(narrative_bodies(lines, lines.len() as int))
}

/// The tags of one transaction: its line, and the tags of its narrative. A
/// narrative is written as one tag with its lines under it, as long as none
/// of its lines would be read as a tag or as the end line. Read again, the
/// narrative tags give the narrative back whatever its lines hold.
pub open spec fn line_tags(t: TransactionView) -> Seq<TagView> {
    seq![text_tag(seq!['6', '1'], t.raw)] + match t.narrative {
        Some(n) => narrative_tags(narrative_lines(n)),
        None => Seq::empty(),
    }
}

/// The tags of the transactions, in order.
pub open spec fn transaction_tags(ts: Seq<TransactionView>) -> Seq<TagView>
    decreases ts.len(),
{
    if ts.len() == 0 {
        Seq::empty()
    } else {
        transaction_tags(ts.drop_last()) + line_tags(ts.last())
    }
}

/// The tags of balances under one code, in order.
pub open spec fn balance_tags(code: Seq<char>, bs: Seq<BalanceView>) -> Seq<TagView>
    decreases bs.len(),
{
    if bs.len() == 0 {
        Seq::empty()
    } else {
        balance_tags(code, bs.drop_last()).push(text_tag(code, bs.last().raw))
    }
}

/// The raw text of an optional balance.
pub open spec fn opt_raw(o: Option<BalanceView>) -> Option<Seq<char>> {
    match o {
        Some(b) => Some(b.raw),
        None => None,
    }
}

/// The tags that a statement is written as: reference, statement id,
/// account, statement number, the other tags, the opening balance, the
/// transactions each with its narrative, the closing balance, the closing
/// available balance, the forward available balances. Balances and
/// statement lines are written by their raw text.
pub open spec fn statement_tags(s: StatementView) -> Seq<TagView> {
    seq![text_tag(seq!['2', '0'], s.reference)] + optional_tag(seq!['2', '1'], s.statement_id)
        + seq![
        text_tag(seq!['2', '5'], s.account),
        text_tag(seq!['2', '8', 'C'], s.statement_number),
    ] + s.extras + seq![text_tag(seq!['6', '0', 'F'], s.opening_balance.raw)] + transaction_tags(
        s.transactions,
    ) + seq![text_tag(seq!['6', '2', 'F'], s.closing_balance.raw)] + optional_tag(
        seq!['6', '4'],
        opt_raw(s.closing_available),
    ) + balance_tags(seq!['6', '5'], s.forward_available)
}

/// The text of block four of a statement, without the line that ends it.
pub open spec fn render_statement(s: StatementView) -> Seq<char> {
    render_tags(statement_tags(s))
}

/// A block as it is written.
pub open spec fn block_text(digit: char, content: Seq<char>) -> Seq<char> {
    seq!['{', digit, ':'] + content + seq!['}']
}

/// An optional block with what follows it; nothing where the block is
/// absent.
pub open spec fn optional_block(digit: char, content: Option<Seq<char>>, after: Seq<char>) -> Seq<
    char,
> {
    match content {
        Some(c) => block_text(digit, c) + after,
        None => Seq::empty(),
    }
}

/// A line break of the wire.
pub open spec fn crlf() -> Seq<char> {
    seq!['\r', '\n']
}

/// The whole statement text: blocks one and two on one line, block three on
/// a line of its own where there is one, block four with its tags and the
/// end line, block five where there is one.
pub open spec fn render_mt940(m: Mt940View) -> Seq<char> {
    block_text('1', m.basic_header.render()) + block_text('2', m.application_header) + crlf()
        + optional_block('3', m.user_header, crlf()) + block_text(
        '4',
        render_statement(m.statement) + seq!['-'],
    ) + crlf() + optional_block('5', m.footer, Seq::empty())
}

/// Tags written behind other tags are the two texts one behind the other.
pub proof fn lemma_render_tags_concat(a: Seq<TagView>, b: Seq<TagView>)
    ensures
        render_tags(a + b) == render_tags(a) + render_tags(b),
    decreases b.len(),
{
    if b.len() == 0 {
        assert(a + b =~= a);
        assert(render_tags(a) + render_tags(b) =~= render_tags(a));
    } else {
        assert((a + b).drop_last() =~= a + b.drop_last());
        assert((a + b).last() == b.last());
        lemma_render_tags_concat(a, b.drop_last());
        assert(render_tags(a + b) =~= render_tags(a) + render_tags(b));
    }
}

/// One more tag written is its line behind the text so far.
pub proof fn lemma_render_tags_push(a: Seq<TagView>, t: TagView)
    ensures
        render_tags(a.push(t)) == render_tags(a) + tag_line(t),
{
    assert(a.push(t).drop_last() =~= a);
}

/// Appends one tag line.
fn push_tag_line(out: &mut Vec<char>, code: &[char], body: &str)
    ensures
        final(out)@ == old(out)@ + tag_line(text_tag(code@, body@)),
{
    out.push(':');
    push_all(out, code);
    out.push(':');
    let chars = chars_of(body);
    push_all(out, chars.as_slice());
    out.push('\r');
    out.push('\n');
    proof {
        assert(final(out)@ =~= old(out)@ + tag_line(text_tag(code@, body@)));
    }
}

/// Appends the lines of the tags.
fn push_tags(out: &mut Vec<char>, tags: &Vec<Tag>)
    ensures
        final(out)@ == old(out)@ + render_tags(crate::mt940::format::tag_views(tags@)),
{
    let n: usize = tags.len();
    let ghost all = crate::mt940::format::tag_views(tags@);
    let mut i: usize = 0;
    proof {
        assert(all.subrange(0, 0) =~= Seq::<TagView>::empty());
        assert(out@ =~= old(out)@ + render_tags(all.subrange(0, 0)));
    }
    while i < n
        invariant
            n == tags@.len(),
            all == crate::mt940::format::tag_views(tags@),
            i <= n,
            out@ == old(out)@ + render_tags(all.subrange(0, i as int)),
        decreases n - i,
    {
        let tag: &Tag = &tags[i];
        let code = chars_of(tag.code.as_str());
        let ghost before = out@;
        push_tag_line(out, code.as_slice(), tag.body.as_str());
        proof {
            assert(all.subrange(0, i + 1) =~= all.subrange(0, i as int).push(tag@));
            lemma_render_tags_push(all.subrange(0, i as int), tag@);
            assert(out@ =~= old(out)@ + render_tags(all.subrange(0, i + 1)));
        }
        i += 1;
    }
    proof {
        assert(all.subrange(0, n as int) =~= all);
    }
}

/// The bodies of the first `k` lines depend on those lines alone.
pub proof fn lemma_bodies_prefix(a: Seq<Seq<char>>, b: Seq<Seq<char>>, k: int)
    requires
        0 <= k <= a.len(),
        k <= b.len(),
        forall|i: int| 0 <= i < k ==> a[i] == b[i],
    ensures
        narrative_bodies(a, k) == narrative_bodies(b, k),
        k >= 1 ==> narrative_bodies(a, k).len() >= 1,
    decreases k,
{
    if k > 1 {
        lemma_bodies_prefix(a, b, k - 1);
    }
}

/// Appends the narrative tags of a narrative.
fn push_narrative(out: &mut Vec<char>, n: &[char])
    ensures
        final(out)@ == old(out)@ + render_tags(narrative_tags(narrative_lines(n@))),
{
    let len: usize = n.len();
    let ghost head = seq![':', '8', '6', ':'];
    let ghost code = seq!['8', '6'];
    let mut e: usize = find_char(n, '\n', 0);
    out.push(':');
    out.push('8');
    out.push('6');
    out.push(':');
    push_all(out, slice_subrange(n, 0, e));
    let ghost mut acc: Seq<Seq<char>> = seq![n@.subrange(0, e as int)];
    proof {
        crate::mt940::rows::lemma_pieces_next(n@, 0, e as int, Seq::empty());
        assert(Seq::<Seq<char>>::empty().push(n@.subrange(0, e as int)) =~= acc);
        let bodies = narrative_bodies(acc, 1);
        assert(bodies.drop_last() =~= Seq::<Seq<char>>::empty());
        assert(tags_of_bodies(bodies.drop_last()) =~= Seq::<TagView>::empty());
        assert(out@ =~= old(out)@ + render_tags(tags_of_bodies(bodies.drop_last())) + (head
            + bodies.last()));
    }
    while e < len
        invariant
            len == n@.len(),
            e <= len,
            acc.len() >= 1,
            head == seq![':', '8', '6', ':'],
            code == seq!['8', '6'],
            e < len ==> n@[e as int] == '\n' && narrative_lines(n@) == pieces(
                n@,
                e + 1,
                e + 1,
                acc,
            ),
            e == len ==> narrative_lines(n@) == acc,
            narrative_bodies(acc, acc.len() as int).len() >= 1,
            out@ == old(out)@ + render_tags(
                tags_of_bodies(narrative_bodies(acc, acc.len() as int).drop_last()),
            ) + (head + narrative_bodies(acc, acc.len() as int).last()),
        decreases len - e,
    {
        let start: usize = e + 1;
        let next: usize = find_char(n, '\n', start);
        let line: &[char] = slice_subrange(n, start, next);
        let ghost before = out@;
        let ghost bodies = narrative_bodies(acc, acc.len() as int);
        let ghost grown = acc.push(line@);
        let go_on: bool = continues_tag(line);
        if go_on {
            out.push('\n');
        } else {
            out.push('\r');
            out.push('\n');
            out.push(':');
            out.push('8');
            out.push('6');
            out.push(':');
        }
        push_all(out, line);
        proof {
            crate::mt940::rows::lemma_pieces_next(n@, start as int, next as int, acc);
            lemma_bodies_prefix(grown, acc, acc.len() as int);
            let after = narrative_bodies(grown, grown.len() as int);
            assert(grown[grown.len() - 1] == line@);
            let done = tags_of_bodies(bodies.drop_last());
            if go_on {
                assert(after == bodies.update(
                    bodies.len() - 1,
                    bodies.last() + seq!['\n'] + line@,
                ));
                assert(after.drop_last() =~= bodies.drop_last());
                assert(out@ =~= old(out)@ + render_tags(done) + (head + after.last()));
            } else {
                assert(after == bodies.push(line@));
                assert(after.drop_last() =~= bodies);
                let closed = text_tag(code, bodies.last());
                assert(tags_of_bodies(bodies) =~= done.push(closed));
                lemma_render_tags_push(done, closed);
                assert(tag_line(closed) =~= head + bodies.last() + seq!['\r', '\n']);
                assert(out@ =~= old(out)@ + render_tags(tags_of_bodies(bodies)) + (head
                    + after.last()));
            }
            acc = grown;
        }
        e = next;
    }
    out.push('\r');
    out.push('\n');
    proof {
        let bodies = narrative_bodies(acc, acc.len() as int);
        let done = tags_of_bodies(bodies.drop_last());
        let closed = text_tag(code, bodies.last());
        assert(tags_of_bodies(bodies) =~= done.push(closed));
        lemma_render_tags_push(done, closed);
        assert(tag_line(closed) =~= head + bodies.last() + seq!['\r', '\n']);
        assert(final(out)@ =~= old(out)@ + render_tags(tags_of_bodies(bodies)));
    }
}

/// Appends the lines of one transaction.
fn push_transaction(out: &mut Vec<char>, t: &Transaction)
    ensures
        final(out)@ == old(out)@ + render_tags(line_tags(t@)),
{
    let code = vec!['6', '1'];
    assert(code@ =~= seq!['6', '1']);
    let ghost first = text_tag(seq!['6', '1'], t@.raw);
    push_tag_line(out, code.as_slice(), t.raw.as_str());
    let ghost rest: Seq<TagView> = match t@.narrative {
        Some(nv) => narrative_tags(narrative_lines(nv)),
        None => Seq::empty(),
    };
    match &t.narrative {
        Some(text) => {
            let chars = chars_of(text.as_str());
            push_narrative(out, chars.as_slice());
        },
        None => {
            assert(out@ =~= old(out)@ + tag_line(first) + render_tags(rest));
        },
    }
    proof {
        lemma_render_tags_push(Seq::empty(), first);
        assert(Seq::<TagView>::empty().push(first) =~= seq![first]);
        lemma_render_tags_concat(seq![first], rest);
        assert(line_tags(t@) =~= seq![first] + rest);
        assert(final(out)@ =~= old(out)@ + render_tags(line_tags(t@)));
    }
}

/// Appends the lines of the transactions.
fn push_transactions(out: &mut Vec<char>, ts: &Vec<Transaction>)
    ensures
        final(out)@ == old(out)@ + render_tags(
            transaction_tags(crate::mt940::format::transaction_views(ts@)),
        ),
{
    let n: usize = ts.len();
    let ghost all = crate::mt940::format::transaction_views(ts@);
    let mut i: usize = 0;
    proof {
        assert(all.subrange(0, 0) =~= Seq::<TransactionView>::empty());
        assert(out@ =~= old(out)@ + render_tags(transaction_tags(all.subrange(0, 0))));
    }
    while i < n
        invariant
            n == ts@.len(),
            all == crate::mt940::format::transaction_views(ts@),
            i <= n,
            out@ == old(out)@ + render_tags(transaction_tags(all.subrange(0, i as int))),
        decreases n - i,
    {
        let t: &Transaction = &ts[i];
        push_transaction(out, t);
        proof {
            let prev = all.subrange(0, i as int);
            let next = all.subrange(0, i + 1);
            assert(next.drop_last() =~= prev);
            assert(next.last() == t@);
            lemma_render_tags_concat(transaction_tags(prev), line_tags(t@));
            assert(out@ =~= old(out)@ + render_tags(transaction_tags(next)));
        }
        i += 1;
    }
    proof {
        assert(all.subrange(0, n as int) =~= all);
    }
}

/// Appends the lines of balances under one code.
fn push_balances(out: &mut Vec<char>, code: &[char], bs: &Vec<StatementBalance>)
    ensures
        final(out)@ == old(out)@ + render_tags(
            balance_tags(code@, crate::mt940::format::balance_views(bs@)),
        ),
{
    let n: usize = bs.len();
    let ghost all = crate::mt940::format::balance_views(bs@);
    let mut i: usize = 0;
    proof {
        assert(all.subrange(0, 0) =~= Seq::<BalanceView>::empty());
        assert(out@ =~= old(out)@ + render_tags(balance_tags(code@, all.subrange(0, 0))));
    }
    while i < n
        invariant
            n == bs@.len(),
            all == crate::mt940::format::balance_views(bs@),
            i <= n,
            out@ == old(out)@ + render_tags(balance_tags(code@, all.subrange(0, i as int))),
        decreases n - i,
    {
        let b: &StatementBalance = &bs[i];
        push_tag_line(out, code, b.raw.as_str());
        proof {
            let prev = all.subrange(0, i as int);
            let next = all.subrange(0, i + 1);
            assert(next.drop_last() =~= prev);
            assert(next.last() == b@);
            lemma_render_tags_push(balance_tags(code@, prev), text_tag(code@, b@.raw));
            assert(out@ =~= old(out)@ + render_tags(balance_tags(code@, next)));
        }
        i += 1;
    }
    proof {
        assert(all.subrange(0, n as int) =~= all);
    }
}

/// The text of the tags before the other tags: reference, statement id,
/// account, statement number.
pub open spec fn head_tags(s: StatementView) -> Seq<TagView> {
    seq![text_tag(seq!['2', '0'], s.reference)] + optional_tag(seq!['2', '1'], s.statement_id)
        + seq![
        text_tag(seq!['2', '5'], s.account),
        text_tag(seq!['2', '8', 'C'], s.statement_number),
    ]
}

/// The tags behind the transactions: the closing balance, the closing
/// available balance, the forward available balances.
pub open spec fn tail_tags(s: StatementView) -> Seq<TagView> {
    seq![text_tag(seq!['6', '2', 'F'], s.closing_balance.raw)] + optional_tag(
        seq!['6', '4'],
        opt_raw(s.closing_available),
    ) + balance_tags(seq!['6', '5'], s.forward_available)
}

/// The tags of a statement are its head, the other tags, the opening
/// balance, the transactions and the tail, and its text is their texts one
/// behind the other.
pub proof fn lemma_statement_parts(s: StatementView)
    ensures
        statement_tags(s) == head_tags(s) + s.extras + seq![
            text_tag(seq!['6', '0', 'F'], s.opening_balance.raw),
        ] + transaction_tags(s.transactions) + tail_tags(s),
        render_statement(s) == render_tags(head_tags(s)) + render_tags(s.extras) + tag_line(
            text_tag(seq!['6', '0', 'F'], s.opening_balance.raw),
        ) + render_tags(transaction_tags(s.transactions)) + render_tags(tail_tags(s)),
{
    let opening = text_tag(seq!['6', '0', 'F'], s.opening_balance.raw);
    let a = head_tags(s);
    let b = a + s.extras;
    let c = b + seq![opening];
    let d = c + transaction_tags(s.transactions);
    assert(statement_tags(s) =~= d + tail_tags(s));
    lemma_render_tags_concat(a, s.extras);
    lemma_render_tags_push(b, opening);
    assert(b.push(opening) =~= c);
    lemma_render_tags_concat(c, transaction_tags(s.transactions));
    lemma_render_tags_concat(d, tail_tags(s));
}

/// The text of at most one tag.
pub proof fn lemma_render_optional_tag(code: Seq<char>, body: Option<Seq<char>>)
    ensures
        render_tags(optional_tag(code, body)) == match body {
            Some(b) => tag_line(text_tag(code, b)),
            None => Seq::empty(),
        },
{
    match body {
        Some(b) => {
            lemma_render_tags_push(Seq::empty(), text_tag(code, b));
            assert(Seq::<TagView>::empty().push(text_tag(code, b)) =~= optional_tag(code, body));
            assert(render_tags(Seq::<TagView>::empty()) + tag_line(text_tag(code, b)) =~= tag_line(
                text_tag(code, b),
            ));
        },
        None => {},
    }
}

/// Appends the line of an optional text.
fn push_optional_tag(out: &mut Vec<char>, code: &[char], body: &Option<String>)
    ensures
        final(out)@ == old(out)@ + render_tags(
            optional_tag(code@, crate::mt940::format::opt_text(*body)),
        ),
{
    proof {
        lemma_render_optional_tag(code@, crate::mt940::format::opt_text(*body));
    }
    match body {
        Some(b) => {
            push_tag_line(out, code, b.as_str());
        },
        None => {
            assert(out@ =~= old(out)@ + Seq::<char>::empty());
        },
    }
}

/// Appends the lines of the head of a statement.
fn push_head(out: &mut Vec<char>, m: &StatementModel)
    ensures
        final(out)@ == old(out)@ + render_tags(head_tags(m@)),
{
    let ghost s = m@;
    let c20 = vec!['2', '0'];
    let c21 = vec!['2', '1'];
    let c25 = vec!['2', '5'];
    let c28 = vec!['2', '8', 'C'];
    proof {
        assert(c20@ =~= seq!['2', '0']);
        assert(c21@ =~= seq!['2', '1']);
        assert(c25@ =~= seq!['2', '5']);
        assert(c28@ =~= seq!['2', '8', 'C']);
    }
    push_tag_line(out, c20.as_slice(), m.reference.as_str());
    push_optional_tag(out, c21.as_slice(), &m.statement_id);
    push_tag_line(out, c25.as_slice(), m.account.as_str());
    push_tag_line(out, c28.as_slice(), m.statement_number.as_str());
    proof {
        let t20 = text_tag(c20@, s.reference);
        let t25 = text_tag(c25@, s.account);
        let t28 = text_tag(c28@, s.statement_number);
        let mid = optional_tag(c21@, s.statement_id);
        lemma_render_tags_push(Seq::empty(), t20);
        assert(Seq::<TagView>::empty().push(t20) =~= seq![t20]);
        lemma_render_tags_concat(seq![t20], mid);
        lemma_render_tags_push(seq![t20] + mid, t25);
        lemma_render_tags_push((seq![t20] + mid).push(t25), t28);
        assert(head_tags(s) =~= (seq![t20] + mid).push(t25).push(t28));
        assert(final(out)@ =~= old(out)@ + render_tags(head_tags(s)));
    }
}

/// Appends the lines of the tail of a statement.
fn push_tail(out: &mut Vec<char>, m: &StatementModel)
    ensures
        final(out)@ == old(out)@ + render_tags(tail_tags(m@)),
{
    let ghost s = m@;
    let c62 = vec!['6', '2', 'F'];
    let c64 = vec!['6', '4'];
    let c65 = vec!['6', '5'];
    proof {
        assert(c62@ =~= seq!['6', '2', 'F']);
        assert(c64@ =~= seq!['6', '4']);
        assert(c65@ =~= seq!['6', '5']);
    }
    push_tag_line(out, c62.as_slice(), m.closing_balance.raw.as_str());
    let ghost mid = optional_tag(c64@, opt_raw(s.closing_available));
    proof {
        lemma_render_optional_tag(c64@, opt_raw(s.closing_available));
    }
    let ghost before = out@;
    match &m.closing_available {
        Some(b) => {
            push_tag_line(out, c64.as_slice(), b.raw.as_str());
        },
        None => {
            assert(out@ =~= before + Seq::<char>::empty());
        },
    }
    assert(out@ == before + render_tags(mid));
    push_balances(out, c65.as_slice(), &m.forward_available);
    proof {
        let t62 = text_tag(c62@, s.closing_balance.raw);
        lemma_render_tags_push(Seq::empty(), t62);
        assert(Seq::<TagView>::empty().push(t62) =~= seq![t62]);
        lemma_render_tags_concat(seq![t62], mid);
        lemma_render_tags_concat(seq![t62] + mid, balance_tags(c65@, s.forward_available));
        assert(final(out)@ =~= old(out)@ + render_tags(tail_tags(s)));
    }
}

impl StatementModel {
    /// Appends the text of block four, without the line that ends it.
    pub fn write_chars(&self, out: &mut Vec<char>)
        ensures
            final(out)@ == old(out)@ + render_statement(self@),
    {
        let ghost s = self@;
        let c60 = vec!['6', '0', 'F'];
        proof {
            assert(c60@ =~= seq!['6', '0', 'F']);
            lemma_statement_parts(s);
        }
        push_head(out, self);
        push_tags(out, &self.extras);
        push_tag_line(out, c60.as_slice(), self.opening_balance.raw.as_str());
        push_transactions(out, &self.transactions);
        push_tail(out, self);
        proof {
            assert(final(out)@ =~= old(out)@ + render_statement(s));
        }
    }

    /// Writes block four as text, without the line that ends it.
    pub fn to_mt_string(&self) -> (r: String)
        ensures
            r@ == render_statement(self@),
    {
        let mut out: Vec<char> = Vec::new();
        self.write_chars(&mut out);
        proof {
            assert(out@ =~= render_statement(self@));
        }
        string_of(out.as_slice())
    }
}

/// Appends a block.
fn push_block(out: &mut Vec<char>, digit: char, content: &[char])
    ensures
        final(out)@ == old(out)@ + block_text(digit, content@),
{
    out.push('{');
    out.push(digit);
    out.push(':');
    push_all(out, content);
    out.push('}');
    proof {
        assert(final(out)@ =~= old(out)@ + block_text(digit, content@));
    }
}

/// Appends an optional block and what follows it.
fn push_optional_block(out: &mut Vec<char>, digit: char, content: &Option<String>, after: &[char])
    ensures
        final(out)@ == old(out)@ + optional_block(
            digit,
            crate::mt940::format::opt_text(*content),
            after@,
        ),
{
    match content {
        Some(c) => {
            let chars = chars_of(c.as_str());
            push_block(out, digit, chars.as_slice());
            push_all(out, after);
            proof {
                assert(final(out)@ =~= old(out)@ + (block_text(digit, c@) + after@));
            }
        },
        None => {
            assert(out@ =~= old(out)@ + Seq::<char>::empty());
        },
    }
}

impl Mt940 {
    /// Appends the whole statement text.
    pub fn write_chars(&self, out: &mut Vec<char>)
        ensures
            final(out)@ == old(out)@ + render_mt940(self@),
    {
        let ghost m = self@;
        let mut header: Vec<char> = Vec::new();
        self.basic_header.write_chars(&mut header);
        assert(header@ =~= m.basic_header.render());
        let mut body: Vec<char> = Vec::new();
        self.statement.write_chars(&mut body);
        body.push('-');
        assert(body@ =~= render_statement(m.statement) + seq!['-']);
        let application = chars_of(self.application_header.as_str());
        let line_break = vec!['\r', '\n'];
        let nothing: Vec<char> = Vec::new();
        assert(line_break@ =~= crlf());
        assert(nothing@ =~= Seq::<char>::empty());
        push_block(out, '1', header.as_slice());
        push_block(out, '2', application.as_slice());
        push_all(out, line_break.as_slice());
        push_optional_block(out, '3', &self.user_header, line_break.as_slice());
        push_block(out, '4', body.as_slice());
        push_all(out, line_break.as_slice());
        push_optional_block(out, '5', &self.footer, nothing.as_slice());
        proof {
            assert(final(out)@ =~= old(out)@ + render_mt940(m));
        }
    }

    /// Writes the whole statement text. It never fails.
    pub fn to_string(&self) -> (r: Result<String, ParserError>)
        ensures
            r is Ok,
            r->Ok_0@ == render_mt940(self@),
    {
        let mut out: Vec<char> = Vec::new();
        self.write_chars(&mut out);
        proof {
            assert(out@ =~= render_mt940(self@));
        }
        Ok(string_of(out.as_slice()))
    }
}

} // verus!
