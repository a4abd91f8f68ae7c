//! A statement text that was decoded, written and decoded again is the
//! statement that was decoded first.

use vstd::prelude::*;
use crate::mt940::blocks::{
    lemma_scan_block_at, lemma_scan_blocks_len, lemma_scan_blocks_no_brace, no_blocks, place_block,
    scan_blocks, slots_hold_no_brace, split_blocks,
};
use crate::mt940::format::{Mt940View, TagView};
use crate::mt940::header::{cut_basic_header, decode_basic_header, lemma_basic_header_render};
use crate::mt940::reader::{decode_mt940, decode_statement};
use crate::mt940::redecode::{lemma_statement_tags_are_safe, lemma_statement_tags_decode};
use crate::mt940::rereadable::lemma_decoded_statement_is_rereadable;
use crate::mt940::retokenize::{all_safe, is_safe_tag, lemma_written_tags_are_read};
use crate::mt940::safe_tags::lemma_tokenized_tags_are_safe;
use crate::mt940::tokenizer::{end_line, tokenize_text};
use crate::mt940::writer::{
    block_text, crlf, optional_block, render_mt940, render_statement, render_tags, statement_tags,
    tag_line,
};
use crate::text::{digit_value, has_no, is_digit, is_upper, lemma_has_no_concat};

verus! {

/// The written text of safe tags holds no closing brace.
pub proof fn lemma_written_tags_hold_no_brace(tags: Seq<TagView>)
    requires
        all_safe(tags),
    ensures
        has_no(render_tags(tags), '}'),
    decreases tags.len(),
{
    if tags.len() > 0 {
        let before = tags.drop_last();
        let t = tags.last();
        assert(all_safe(before)) by {
            assert forall|k: int| 0 <= k < before.len() implies is_safe_tag(
                #[trigger] before[k],
            ) by {
                assert(before[k] == tags[k]);
            }
        }
        lemma_written_tags_hold_no_brace(before);
        assert(is_safe_tag(t));
        let line = tag_line(t);
        assert(has_no(line, '}')) by {
            assert forall|i: int| 0 <= i < line.len() implies #[trigger] line[i] != '}' by {
                let c = t.code.len();
                if i == 0 {
                } else if i <= c {
                    assert(line[i] == t.code[i - 1]);
                    assert(is_digit(t.code[i - 1]) || is_upper(t.code[i - 1]));
                } else if i == c + 1 {
                } else if i < c + 2 + t.body.len() {
                    assert(line[i] == t.body[i - c - 2]);
                } else {
                }
            }
        }
        lemma_has_no_concat(render_tags(before), line, '}');
    }
}

/// Where a block stands between two texts, the scan from its start puts its
/// content in its slot and goes on behind it.
pub proof fn lemma_scan_part_block(
    pre: Seq<char>,
    digit: char,
    content: Seq<char>,
    post: Seq<char>,
    slots: Seq<Option<Seq<char>>>,
)
    requires
        is_digit(digit),
        has_no(content, '}'),
    ensures
        scan_blocks(pre + block_text(digit, content) + post, pre.len() as int, slots)
            == scan_blocks(
            pre + block_text(digit, content) + post,
            pre.len() as int + block_text(digit, content).len(),
            place_block(slots, digit_value(digit), content),
        ),
        block_text(digit, content).len() == content.len() + 4,
{
    let b = block_text(digit, content);
    let w = pre + b + post;
    let i = pre.len() as int;
    assert(b.len() == content.len() + 4);
    assert(w[i] == b[0]);
    assert(w[i + 1] == b[1]);
    assert(w[i + 2] == b[2]);
    assert(w[i + 3 + content.len()] == b[3 + content.len() as int]);
    assert(w.subrange(i + 3, i + 3 + content.len()) =~= content) by {
        assert forall|k: int| 0 <= k < content.len() implies w[i + 3 + k] == content[k] by {
            assert(w[i + 3 + k] == b[3 + k]);
        }
    }
    lemma_scan_block_at(w, i, digit, content, slots);
}

/// Where a line break of the wire stands between two texts, the scan from
/// its start goes on behind it.
pub proof fn lemma_scan_part_break(pre: Seq<char>, post: Seq<char>, slots: Seq<Option<Seq<char>>>)
    ensures
        scan_blocks(pre + crlf() + post, pre.len() as int, slots) == scan_blocks(
            pre + crlf() + post,
            pre.len() as int + 2,
            slots,
        ),
{
    let w = pre + crlf() + post;
    let i = pre.len() as int;
    assert(w[i] == '\r');
    assert(w[i + 1] == '\n');
    assert(scan_blocks(w, i, slots) == scan_blocks(w, i + 1, slots));
    assert(scan_blocks(w, i + 1, slots) == scan_blocks(w, i + 2, slots));
}

/// The slots after an optional block: its content in its slot where there is
/// one.
pub open spec fn place_optional(
    slots: Seq<Option<Seq<char>>>,
    digit: char,
    content: Option<Seq<char>>,
) -> Seq<Option<Seq<char>>> {
    match content {
        Some(c) => place_block(slots, digit_value(digit), c),
        None => slots,
    }
}

/// Where an optional block, with a line break of the wire behind it or with
/// nothing, stands between two texts, the scan from its start puts its
/// content in its slot, where there is one, and goes on behind it.
pub proof fn lemma_scan_part_optional(
    pre: Seq<char>,
    digit: char,
    content: Option<Seq<char>>,
    after: Seq<char>,
    post: Seq<char>,
    slots: Seq<Option<Seq<char>>>,
)
    requires
        is_digit(digit),
        content matches Some(c) ==> has_no(c, '}'),
        after == crlf() || after == Seq::<char>::empty(),
    ensures
        scan_blocks(
            pre + optional_block(digit, content, after) + post,
            pre.len() as int,
            slots,
        ) == scan_blocks(
            pre + optional_block(digit, content, after) + post,
            pre.len() as int + optional_block(digit, content, after).len(),
            place_optional(slots, digit, content),
        ),
{
    let o = optional_block(digit, content, after);
    let w = pre + o + post;
    match content {
        Some(c) => {
            let b = block_text(digit, c);
            assert(o == b + after);
            assert(w =~= pre + b + (after + post));
            lemma_scan_part_block(pre, digit, c, after + post, slots);
            if after == crlf() {
                assert(w =~= (pre + b) + crlf() + post);
                lemma_scan_part_break(pre + b, post, place_block(slots, digit_value(digit), c));
            } else {
                assert(o.len() == b.len());
            }
        },
        None => {},
    }
}

/// The slots of a written statement text.
pub open spec fn written_slots(m: Mt940View) -> Seq<Option<Seq<char>>> {
    seq![
        Some(m.basic_header.render()),
        Some(m.application_header),
        m.user_header,
        Some(render_statement(m.statement) + end_line()),
        m.footer,
    ]
}

/// Texts one behind the other can be read from the left or from the right.
pub proof fn lemma_concat_assoc(a: Seq<char>, b: Seq<char>, c: Seq<char>)
    ensures
        a + (b + c) == (a + b) + c,
{
    assert(a + (b + c) =~= (a + b) + c);
}

/// The scan of the first three blocks of a written statement text.
pub proof fn lemma_scan_written_head(
    h: Seq<char>,
    a: Seq<char>,
    u: Option<Seq<char>>,
    rest: Seq<char>,
)
    requires
        has_no(h, '}'),
        has_no(a, '}'),
        u matches Some(c) ==> has_no(c, '}'),
    ensures
        scan_blocks(
            block_text('1', h) + block_text('2', a) + crlf() + optional_block('3', u, crlf())
                + rest,
            0,
            no_blocks(),
        ) == scan_blocks(
            block_text('1', h) + block_text('2', a) + crlf() + optional_block('3', u, crlf())
                + rest,
            (block_text('1', h) + block_text('2', a) + crlf() + optional_block(
                '3',
                u,
                crlf(),
            )).len() as int,
            place_optional(place_block(place_block(no_blocks(), 1, h), 2, a), '3', u),
        ),
{
    let none = Seq::<char>::empty();
    let b1 = block_text('1', h);
    let b2 = block_text('2', a);
    let o3 = optional_block('3', u, crlf());
    let w1 = b1;
    let w2 = w1 + b2;
    let w3 = w2 + crlf();
    let w4 = w3 + o3;
    let w = w4 + rest;
    let r3 = o3 + rest;
    let r2 = crlf() + r3;
    let r1 = b2 + r2;
    lemma_concat_assoc(w3, o3, rest);
    lemma_concat_assoc(w2, crlf(), r3);
    lemma_concat_assoc(w1, b2, r2);
    assert(w == w3 + r3);
    assert(w == w2 + r2);
    assert(w == w1 + r1);
    assert(digit_value('1') == 1 && digit_value('2') == 2);
    let s0 = no_blocks();
    let s1 = place_block(s0, 1, h);
    let s2 = place_block(s1, 2, a);
    assert(none + b1 =~= b1);
    lemma_scan_part_block(none, '1', h, r1, s0);
    assert(scan_blocks(w, 0, s0) == scan_blocks(w, w1.len() as int, s1));
    lemma_scan_part_block(w1, '2', a, r2, s1);
    assert(scan_blocks(w, w1.len() as int, s1) == scan_blocks(w, w2.len() as int, s2));
    lemma_scan_part_break(w2, r3, s2);
    assert(scan_blocks(w, w2.len() as int, s2) == scan_blocks(w, w3.len() as int, s2));
    lemma_scan_part_optional(w3, '3', u, crlf(), rest, s2);
}

/// The scan of the last two blocks of a written statement text.
pub proof fn lemma_scan_written_tail(
    pre: Seq<char>,
    body: Seq<char>,
    f: Option<Seq<char>>,
    slots: Seq<Option<Seq<char>>>,
)
    requires
        has_no(body, '}'),
        f matches Some(c) ==> has_no(c, '}'),
    ensures
        scan_blocks(
            pre + block_text('4', body) + crlf() + optional_block('5', f, Seq::empty()),
            pre.len() as int,
            slots,
        ) == place_optional(place_block(slots, 4, body), '5', f),
{
    let none = Seq::<char>::empty();
    let b4 = block_text('4', body);
    let o5 = optional_block('5', f, none);
    let w5 = pre + b4;
    let w6 = w5 + crlf();
    let w = w6 + o5;
    let r5 = crlf() + o5;
    lemma_concat_assoc(w5, crlf(), o5);
    assert(w == w5 + r5);
    assert(digit_value('4') == 4);
    let s4 = place_block(slots, 4, body);
    let s5 = place_optional(s4, '5', f);
    lemma_scan_part_block(pre, '4', body, r5, slots);
    assert(scan_blocks(w, pre.len() as int, slots) == scan_blocks(w, w5.len() as int, s4));
    lemma_scan_part_break(w5, o5, s4);
    assert(scan_blocks(w, w5.len() as int, s4) == scan_blocks(w, w6.len() as int, s4));
    assert(w =~= w6 + o5 + none);
    lemma_scan_part_optional(w6, '5', f, none, none, s4);
    assert(scan_blocks(w, w.len() as int, s5) == s5);
}

/// A written statement text whose parts hold no closing brace splits into
/// those parts.
pub proof fn lemma_written_text_splits(m: Mt940View)
    requires
        has_no(m.basic_header.render(), '}'),
        has_no(m.application_header, '}'),
        m.user_header matches Some(u) ==> has_no(u, '}'),
        has_no(render_statement(m.statement), '}'),
        m.footer matches Some(f) ==> has_no(f, '}'),
    ensures
        split_blocks(render_mt940(m)) == written_slots(m),
{
    let h = m.basic_header.render();
    let a = m.application_header;
    let body = render_statement(m.statement) + end_line();
    assert(end_line() == seq!['-']);
    assert(has_no(end_line(), '}'));
    lemma_has_no_concat(render_statement(m.statement), end_line(), '}');
    let none = Seq::<char>::empty();
    let pre = block_text('1', h) + block_text('2', a) + crlf() + optional_block(
        '3',
        m.user_header,
        crlf(),
    );
    let rest = block_text('4', body) + crlf() + optional_block('5', m.footer, none);
    let w = render_mt940(m);
    lemma_concat_assoc(pre + block_text('4', body), crlf(), optional_block('5', m.footer, none));
    lemma_concat_assoc(pre, block_text('4', body), crlf() + optional_block('5', m.footer, none));
    lemma_concat_assoc(block_text('4', body), crlf(), optional_block('5', m.footer, none));
    assert(w == pre + rest);
    let s3 = place_optional(place_block(place_block(no_blocks(), 1, h), 2, a), '3', m.user_header);
    lemma_scan_written_head(h, a, m.user_header, rest);
    lemma_scan_written_tail(pre, body, m.footer, s3);
    let s5 = place_optional(place_block(s3, 4, body), '5', m.footer);
    assert(digit_value('3') == 3 && digit_value('5') == 5);
    assert(s5 =~= written_slots(m));
}

/// The statement of every statement text that decodes is read back as it is
/// written.
pub proof fn lemma_decoded_text_is_rereadable(text: Seq<char>)
    requires
        decode_mt940(text) is Ok,
    ensures
        (decode_mt940(text)->Ok_0).statement.is_rereadable(),
{
    let blocks = split_blocks(text);
    lemma_scan_blocks_len(text, 0, no_blocks());
    assert(slots_hold_no_brace(no_blocks()));
    lemma_scan_blocks_no_brace(text, 0, no_blocks());
    let b4 = blocks[3]->0;
    assert(has_no(b4, '}'));
    lemma_tokenized_tags_are_safe(b4);
    lemma_decoded_statement_is_rereadable(tokenize_text(b4));
}

/// A statement text that decodes, written again from what it decoded into,
/// decodes into the same: the header fields, every balance with its sign,
/// date, currency and amount, every transaction with its value date, amount
/// and mark, and every narrative, supplementary text and other tag, each as
/// it was.
pub proof fn law_written_text_is_read_back(text: Seq<char>)
    requires
        decode_mt940(text) is Ok,
    ensures
        decode_mt940(render_mt940(decode_mt940(text)->Ok_0)) == decode_mt940(text),
{
    let m = decode_mt940(text)->Ok_0;
    let blocks = split_blocks(text);
    lemma_scan_blocks_len(text, 0, no_blocks());
    assert(slots_hold_no_brace(no_blocks()));
    lemma_scan_blocks_no_brace(text, 0, no_blocks());
    let h = blocks[0]->0;
    let a = blocks[1]->0;
    let b4 = blocks[3]->0;
    assert(has_no(h, '}'));
    assert(has_no(a, '}'));
    assert(has_no(b4, '}'));
    assert(blocks[2] matches Some(u) ==> has_no(u, '}'));
    assert(blocks[4] matches Some(f) ==> has_no(f, '}'));
    lemma_basic_header_render(h);
    assert(m.basic_header.render() == h);
    let tags = tokenize_text(b4);
    lemma_tokenized_tags_are_safe(b4);
    lemma_decoded_statement_is_rereadable(tags);
    let s = m.statement;
    assert(s == decode_statement(tags)->Ok_0);
    lemma_statement_tags_are_safe(s);
    lemma_written_tags_are_read(statement_tags(s));
    lemma_statement_tags_decode(s);
    lemma_written_tags_hold_no_brace(statement_tags(s));
    lemma_written_text_splits(m);
    let again = split_blocks(render_mt940(m));
    assert(again[0] == Some(h));
    assert(again[1] == Some(a));
    assert(again[2] == blocks[2]);
    assert(again[3] == Some(render_statement(s) + end_line()));
    assert(again[4] == blocks[4]);
    assert(decode_basic_header(h) == Some(cut_basic_header(h)));
}

} // verus!
