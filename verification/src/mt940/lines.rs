//! What the lines of a written statement are: the rows of its tags.

use vstd::prelude::*;
use crate::mt940::format::TagView;
use crate::mt940::rows::rows_of;
use crate::mt940::tokenizer::{end_line, lines_of, scan_lines};
use crate::mt940::writer::{crlf, pieces, render_tags, tag_line};
use crate::text::has_no;

verus! {

/// The lines behind lines already found are those lines and the lines of the
/// rest.
pub proof fn lemma_lines_acc(s: Seq<char>, start: int, i: int, acc: Seq<Seq<char>>)
    requires
        0 <= start <= i <= s.len(),
    ensures
        scan_lines(s, start, i, acc) == acc + scan_lines(s, start, i, Seq::empty()),
    decreases s.len() - i,
{
    let none = Seq::<Seq<char>>::empty();
    if i >= s.len() {
        if start < s.len() {
            assert(acc.push(s.subrange(start, s.len() as int)) =~= acc + none.push(
                s.subrange(start, s.len() as int),
            ));
        } else {
            assert(acc =~= acc + none);
        }
    } else if s[i] == '\r' && i + 1 < s.len() && s[i + 1] == '\n' {
        let line = s.subrange(start, i);
        lemma_lines_acc(s, i + 2, i + 2, acc.push(line));
        lemma_lines_acc(s, i + 2, i + 2, none.push(line));
        assert(acc.push(line) + scan_lines(s, i + 2, i + 2, none) =~= acc + (none.push(line)
            + scan_lines(s, i + 2, i + 2, none)));
    } else if s[i] == '\n' || s[i] == '\r' {
        let line = s.subrange(start, i);
        lemma_lines_acc(s, i + 1, i + 1, acc.push(line));
        lemma_lines_acc(s, i + 1, i + 1, none.push(line));
        assert(acc.push(line) + scan_lines(s, i + 1, i + 1, none) =~= acc + (none.push(line)
            + scan_lines(s, i + 1, i + 1, none)));
    } else {
        lemma_lines_acc(s, start, i + 1, acc);
    }
}

/// The lines of a text behind another text are the lines of the text alone,
/// from the same places.
pub proof fn lemma_lines_shift(
    a: Seq<char>,
    b: Seq<char>,
    start: int,
    i: int,
    acc: Seq<Seq<char>>,
)
    requires
        0 <= start <= i <= b.len(),
    ensures
        scan_lines(a + b, a.len() + start, a.len() + i, acc) == scan_lines(b, start, i, acc),
    decreases b.len() - i,
{
    let w = a + b;
    let n = a.len() as int;
    if i >= b.len() {
        if start < b.len() {
            assert(w.subrange(n + start, w.len() as int) =~= b.subrange(start, b.len() as int));
        }
    } else {
        assert(w[n + i] == b[i]);
        assert(w.subrange(n + start, n + i) =~= b.subrange(start, i));
        if i + 1 < b.len() {
            assert(w[n + i + 1] == b[i + 1]);
        }
        if b[i] == '\r' && i + 1 < b.len() && b[i + 1] == '\n' {
            lemma_lines_shift(a, b, i + 2, i + 2, acc.push(b.subrange(start, i)));
        } else if b[i] == '\n' || b[i] == '\r' {
            lemma_lines_shift(a, b, i + 1, i + 1, acc.push(b.subrange(start, i)));
        } else {
            lemma_lines_shift(a, b, start, i + 1, acc);
        }
    }
}

/// The lines of a text that ends in a line feed, with another text behind
/// it, are the lines of the first and the lines of the second.
pub proof fn lemma_lines_prefix(
    a: Seq<char>,
    b: Seq<char>,
    start: int,
    i: int,
    acc: Seq<Seq<char>>,
)
    requires
        a.len() > 0,
        a.last() == '\n',
        0 <= start <= i <= a.len(),
        i == a.len() ==> start == i,
    ensures
        scan_lines(a + b, start, i, acc) == scan_lines(a, start, i, acc) + lines_of(b),
    decreases a.len() - i,
{
    let w = a + b;
    let n = a.len() as int;
    if i >= n {
        lemma_lines_shift(a, b, 0, 0, acc);
        lemma_lines_acc(b, 0, 0, acc);
    } else {
        assert(w[i] == a[i]);
        assert(w.subrange(start, i) =~= a.subrange(start, i));
        if i + 1 < n {
            assert(w[i + 1] == a[i + 1]);
        }
        if a[i] == '\r' && i + 1 < n && a[i + 1] == '\n' {
            lemma_lines_prefix(a, b, i + 2, i + 2, acc.push(a.subrange(start, i)));
        } else if a[i] == '\n' || a[i] == '\r' {
            if a[i] == '\r' {
                assert(i + 1 < n);
                assert(!(i + 1 < w.len() && w[i + 1] == '\n'));
            }
            lemma_lines_prefix(a, b, i + 1, i + 1, acc.push(a.subrange(start, i)));
        } else {
            assert(i + 1 < n || a[i] == '\n');
            lemma_lines_prefix(a, b, start, i + 1, acc);
        }
    }
}

/// The lines of a text without carriage return, with a line break of the
/// wire behind it, are the pieces of the text.
pub proof fn lemma_lines_of_rows(u: Seq<char>, start: int, i: int, acc: Seq<Seq<char>>)
    requires
        has_no(u, '\r'),
        0 <= start <= i <= u.len(),
    ensures
        scan_lines(u + crlf(), start, i, acc) == pieces(u, start, i, acc),
    decreases u.len() - i,
{
    let w = u + crlf();
    let n = u.len() as int;
    if i < n {
        assert(w[i] == u[i]);
        assert(u[i] != '\r');
        assert(w.subrange(start, i) =~= u.subrange(start, i));
        if u[i] == '\n' {
            lemma_lines_of_rows(u, i + 1, i + 1, acc.push(u.subrange(start, i)));
        } else {
            lemma_lines_of_rows(u, start, i + 1, acc);
        }
    } else {
        assert(w[n] == '\r');
        assert(w[n + 1] == '\n');
        assert(w.len() == n + 2);
        assert(w.subrange(start, n) =~= u.subrange(start, n));
        let next = acc.push(u.subrange(start, n));
        assert(scan_lines(w, n + 2, n + 2, next) == next);
    }
}

/// The text before the body of a tag: its code between colons.
pub open spec fn tag_head(code: Seq<char>) -> Seq<char> {
    seq![':'] + code + seq![':']
}

/// The rows that a tag is written as.
pub open spec fn tag_rows(t: TagView) -> Seq<Seq<char>> {
    rows_of(tag_head(t.code) + t.body)
}

/// The rows that tags are written as, one tag after the other.
pub open spec fn all_rows(tags: Seq<TagView>) -> Seq<Seq<char>>
    decreases tags.len(),
{
    if tags.len() == 0 {
        Seq::empty()
    } else {
        all_rows(tags.drop_last()) + tag_rows(tags.last())
    }
}

/// No tag holds a carriage return.
pub open spec fn tags_hold_no_return(tags: Seq<TagView>) -> bool {
    forall|k: int|
        0 <= k < tags.len() ==> has_no((#[trigger] tags[k]).code, '\r') && has_no(tags[k].body, '\r')
}

/// The written text of tags is empty or ends in a line feed.
pub proof fn lemma_render_tags_end(tags: Seq<TagView>)
    ensures
        tags.len() == 0 ==> render_tags(tags).len() == 0,
        tags.len() > 0 ==> render_tags(tags).len() > 0 && render_tags(tags).last() == '\n',
{
    if tags.len() > 0 {
        let w = render_tags(tags);
        let line = tag_line(tags.last());
        assert(line.last() == '\n');
        assert(w.last() == line.last());
    }
}

/// The lines of the written text of one tag are its rows.
pub proof fn lemma_lines_of_tag(t: TagView)
    requires
        has_no(t.code, '\r'),
        has_no(t.body, '\r'),
    ensures
        lines_of(tag_line(t)) == tag_rows(t),
{
    let u = tag_head(t.code) + t.body;
    assert(has_no(u, '\r')) by {
        assert forall|i: int| 0 <= i < u.len() implies #[trigger] u[i] != '\r' by {
            if i == 0 {
            } else if i <= t.code.len() {
                assert(u[i] == t.code[i - 1]);
            } else if i == t.code.len() + 1 {
            } else {
                assert(u[i] == t.body[i - t.code.len() - 2]);
            }
        }
    }
    assert(tag_line(t) =~= u + crlf());
    lemma_lines_of_rows(u, 0, 0, Seq::empty());
}

/// The lines of the written text of tags are their rows.
pub proof fn lemma_lines_of_tags(tags: Seq<TagView>)
    requires
        tags_hold_no_return(tags),
    ensures
        lines_of(render_tags(tags)) == all_rows(tags),
    decreases tags.len(),
{
    if tags.len() == 0 {
    } else {
        let before = tags.drop_last();
        let t = tags.last();
        assert(tags_hold_no_return(before)) by {
            assert forall|k: int| 0 <= k < before.len() implies has_no(
                (#[trigger] before[k]).code,
                '\r',
            ) && has_no(before[k].body, '\r') by {
                assert(before[k] == tags[k]);
            }
        }
        lemma_lines_of_tags(before);
        lemma_lines_of_tag(t);
        lemma_render_tags_end(before);
        let a = render_tags(before);
        let b = tag_line(t);
        if before.len() == 0 {
            assert(a + b =~= b);
            assert(all_rows(before) + tag_rows(t) =~= tag_rows(t));
        } else {
            lemma_lines_prefix(a, b, 0, 0, Seq::empty());
        }
    }
}

/// The lines of a written block four are the rows of its tags and the end
/// line.
pub proof fn lemma_lines_of_block(tags: Seq<TagView>)
    requires
        tags_hold_no_return(tags),
    ensures
        lines_of(render_tags(tags) + end_line()) == all_rows(tags).push(end_line()),
{
    lemma_lines_of_tags(tags);
    lemma_render_tags_end(tags);
    let a = render_tags(tags);
    let e = end_line();
    let none = Seq::<Seq<char>>::empty();
    assert(lines_of(e) == none.push(e)) by {
        assert(e.subrange(0, 1) =~= e);
        assert(scan_lines(e, 0, 1, none) == none.push(e));
    }
    if tags.len() == 0 {
        assert(a + e =~= e);
        assert(all_rows(tags).push(e) =~= none.push(e));
    } else {
        lemma_lines_prefix(a, e, 0, 0, none);
        assert(all_rows(tags) + none.push(e) =~= all_rows(tags).push(e));
    }
}

} // verus!
