//! Texts cut at their line feeds, and joined again.

use vstd::prelude::*;
use crate::mt940::writer::pieces;
use crate::text::has_no;

verus! {

/// The rows of a text: its pieces between line feeds.
pub open spec fn rows_of(s: Seq<char>) -> Seq<Seq<char>> {
    pieces(s, 0, 0, Seq::empty())
}

/// The first `k` rows joined by line feeds.
pub open spec fn join_rows(rows: Seq<Seq<char>>, k: int) -> Seq<char>
    decreases k,
{
    if k <= 1 {
        rows[0]
    } else {
        join_rows(rows, k - 1) + seq!['\n'] + rows[k - 1]
    }
}

/// The pieces behind pieces already found are those pieces and the pieces of
/// the rest.
pub proof fn lemma_pieces_acc(s: Seq<char>, start: int, i: int, acc: Seq<Seq<char>>)
    requires
        0 <= start <= i <= s.len(),
    ensures
        pieces(s, start, i, acc) == acc + pieces(s, start, i, Seq::empty()),
        pieces(s, start, i, acc).len() > acc.len(),
    decreases s.len() - i,
{
    let none = Seq::<Seq<char>>::empty();
    if i >= s.len() {
        assert(acc.push(s.subrange(start, s.len() as int)) =~= acc + none.push(
            s.subrange(start, s.len() as int),
        ));
    } else if s[i] == '\n' {
        let line = s.subrange(start, i);
        lemma_pieces_acc(s, i + 1, i + 1, acc.push(line));
        lemma_pieces_acc(s, i + 1, i + 1, none.push(line));
        assert(acc.push(line) + pieces(s, i + 1, i + 1, none) =~= acc + (none.push(line) + pieces(
            s,
            i + 1,
            i + 1,
            none,
        )));
    } else {
        lemma_pieces_acc(s, start, i + 1, acc);
    }
}

/// Where no line feed stands from `i` on, one piece is left: all from
/// `start` on.
pub proof fn lemma_pieces_plain(s: Seq<char>, start: int, i: int, acc: Seq<Seq<char>>)
    requires
        0 <= start <= i <= s.len(),
        forall|k: int| i <= k < s.len() ==> s[k] != '\n',
    ensures
        pieces(s, start, i, acc) == acc.push(s.subrange(start, s.len() as int)),
    decreases s.len() - i,
{
    if i < s.len() {
        lemma_pieces_plain(s, start, i + 1, acc);
    }
}

/// A text without line feed is its own single row.
pub proof fn lemma_rows_of_plain(s: Seq<char>)
    requires
        has_no(s, '\n'),
    ensures
        rows_of(s) == seq![s],
{
    lemma_pieces_plain(s, 0, 0, Seq::empty());
    assert(s.subrange(0, s.len() as int) =~= s);
    assert(Seq::<Seq<char>>::empty().push(s) =~= seq![s]);
}

/// The pieces of a text with a line feed and one more row behind it are the
/// pieces of the text and that row.
pub proof fn lemma_pieces_append(
    x: Seq<char>,
    row: Seq<char>,
    start: int,
    i: int,
    acc: Seq<Seq<char>>,
)
    requires
        0 <= start <= i <= x.len(),
        has_no(row, '\n'),
    ensures
        pieces(x + seq!['\n'] + row, start, i, acc) == pieces(x, start, i, acc).push(row),
    decreases x.len() - i,
{
    let w = x + seq!['\n'] + row;
    if i < x.len() {
        assert(w[i] == x[i]);
        if x[i] == '\n' {
            assert(w.subrange(start, i) =~= x.subrange(start, i));
            lemma_pieces_append(x, row, i + 1, i + 1, acc.push(x.subrange(start, i)));
        } else {
            lemma_pieces_append(x, row, start, i + 1, acc);
        }
    } else {
        assert(w[i] == '\n');
        assert(w.subrange(start, i) =~= x.subrange(start, x.len() as int));
        let next = acc.push(x.subrange(start, x.len() as int));
        assert forall|k: int| i + 1 <= k < w.len() implies w[k] != '\n' by {
            assert(w[k] == row[k - i - 1]);
        }
        lemma_pieces_plain(w, i + 1, i + 1, next);
        assert(w.subrange(i + 1, w.len() as int) =~= row);
    }
}

/// The rows of a text with a line feed and one more row behind it are the
/// rows of the text and that row.
pub proof fn lemma_rows_append(x: Seq<char>, row: Seq<char>)
    requires
        has_no(row, '\n'),
    ensures
        rows_of(x + seq!['\n'] + row) == rows_of(x).push(row),
{
    lemma_pieces_append(x, row, 0, 0, Seq::empty());
}

/// The pieces of a text behind another text are the pieces of the text
/// alone, from the same places.
pub proof fn lemma_pieces_shift(
    p: Seq<char>,
    b: Seq<char>,
    start: int,
    i: int,
    acc: Seq<Seq<char>>,
)
    requires
        0 <= start <= i <= b.len(),
    ensures
        pieces(p + b, p.len() + start, p.len() + i, acc) == pieces(b, start, i, acc),
    decreases b.len() - i,
{
    let w = p + b;
    let n = p.len() as int;
    if i < b.len() {
        assert(w[n + i] == b[i]);
        if b[i] == '\n' {
            assert(w.subrange(n + start, n + i) =~= b.subrange(start, i));
            lemma_pieces_shift(p, b, i + 1, i + 1, acc.push(b.subrange(start, i)));
        } else {
            lemma_pieces_shift(p, b, start, i + 1, acc);
        }
    } else {
        assert(w.subrange(n + start, w.len() as int) =~= b.subrange(start, b.len() as int));
    }
}

/// The first piece of a text behind a head without line feed starts with
/// the head; the scan of the two, as long as no line feed was met, goes as
/// the scan of the text alone.
pub proof fn lemma_pieces_head(p: Seq<char>, b: Seq<char>, i: int)
    requires
        has_no(p, '\n'),
        0 <= i <= b.len(),
        forall|k: int| 0 <= k < i ==> b[k] != '\n',
    ensures
        pieces(p + b, 0, p.len() + i, Seq::empty()).len() == pieces(
            b,
            0,
            i,
            Seq::empty(),
        ).len(),
        pieces(p + b, 0, p.len() + i, Seq::empty())[0] == p + pieces(b, 0, i, Seq::empty())[0],
        forall|k: int|
            1 <= k < pieces(b, 0, i, Seq::empty()).len() ==> pieces(
                p + b,
                0,
                p.len() + i,
                Seq::empty(),
            )[k] == pieces(b, 0, i, Seq::empty())[k],
    decreases b.len() - i,
{
    let w = p + b;
    let n = p.len() as int;
    let none = Seq::<Seq<char>>::empty();
    if i < b.len() {
        assert(w[n + i] == b[i]);
        if b[i] == '\n' {
            let first = b.subrange(0, i);
            assert(w.subrange(0, n + i) =~= p + first);
            lemma_pieces_shift(p, b, i + 1, i + 1, none.push(p + first));
            lemma_pieces_acc(b, i + 1, i + 1, none.push(p + first));
            lemma_pieces_acc(b, i + 1, i + 1, none.push(first));
            let rest = pieces(b, i + 1, i + 1, none);
            assert(pieces(w, 0, n + i, none) == none.push(p + first) + rest);
            assert(pieces(b, 0, i, none) == none.push(first) + rest);
        } else {
            lemma_pieces_head(p, b, i + 1);
        }
    } else {
        assert(w.subrange(0, w.len() as int) =~= p + b.subrange(0, b.len() as int));
    }
}

/// The rows of a text behind a head without line feed are the rows of the
/// text, the first of them behind the head.
pub proof fn lemma_rows_head(p: Seq<char>, b: Seq<char>)
    requires
        has_no(p, '\n'),
    ensures
        rows_of(p + b).len() == rows_of(b).len(),
        rows_of(b).len() >= 1,
        rows_of(p + b)[0] == p + rows_of(b)[0],
        forall|k: int| 1 <= k < rows_of(b).len() ==> rows_of(p + b)[k] == rows_of(b)[k],
{
    let w = p + b;
    lemma_pieces_skip(w, p.len() as int);
    lemma_pieces_head(p, b, 0);
    lemma_pieces_acc(b, 0, 0, Seq::empty());
}

/// The scan of a text that starts with `n` characters other than line feed
/// can start behind them.
pub proof fn lemma_pieces_skip(w: Seq<char>, n: int)
    requires
        0 <= n <= w.len(),
        forall|k: int| 0 <= k < n ==> w[k] != '\n',
    ensures
        pieces(w, 0, 0, Seq::empty()) == pieces(w, 0, n, Seq::empty()),
    decreases n,
{
    if n > 0 {
        lemma_pieces_skip(w, n - 1);
    }
}

/// No row holds a line feed.
pub open spec fn all_plain(rows: Seq<Seq<char>>) -> bool {
    forall|r: int| 0 <= r < rows.len() ==> has_no(#[trigger] rows[r], '\n')
}

/// Rows without line feed and one more such row are rows without line feed.
pub proof fn lemma_all_plain_push(rows: Seq<Seq<char>>, row: Seq<char>)
    requires
        all_plain(rows),
        has_no(row, '\n'),
    ensures
        all_plain(rows.push(row)),
{
    let next = rows.push(row);
    assert forall|r: int| 0 <= r < next.len() implies has_no(#[trigger] next[r], '\n') by {
        if r < rows.len() {
            assert(next[r] == rows[r]);
        }
    }
}

/// A part of a text that holds no line feed between two places is a row
/// without line feed.
pub proof fn lemma_part_is_plain(s: Seq<char>, from: int, to: int)
    requires
        0 <= from <= to <= s.len(),
        forall|k: int| from <= k < to ==> s[k] != '\n',
    ensures
        has_no(s.subrange(from, to), '\n'),
{
    let part = s.subrange(from, to);
    assert forall|k: int| 0 <= k < part.len() implies #[trigger] part[k] != '\n' by {
        assert(part[k] == s[from + k]);
    }
}

/// Every piece is without line feed.
pub proof fn lemma_pieces_are_plain(s: Seq<char>, start: int, i: int, acc: Seq<Seq<char>>)
    requires
        0 <= start <= i <= s.len(),
        forall|k: int| start <= k < i ==> s[k] != '\n',
        all_plain(acc),
    ensures
        all_plain(pieces(s, start, i, acc)),
    decreases s.len() - i,
{
    if i >= s.len() {
        lemma_part_is_plain(s, start, s.len() as int);
        lemma_all_plain_push(acc, s.subrange(start, s.len() as int));
    } else if s[i] == '\n' {
        lemma_part_is_plain(s, start, i);
        lemma_all_plain_push(acc, s.subrange(start, i));
        lemma_pieces_are_plain(s, i + 1, i + 1, acc.push(s.subrange(start, i)));
    } else {
        lemma_pieces_are_plain(s, start, i + 1, acc);
    }
}

/// Every row of a text is without line feed.
pub proof fn lemma_rows_are_plain(s: Seq<char>)
    ensures
        all_plain(rows_of(s)),
{
    lemma_pieces_are_plain(s, 0, 0, Seq::empty());
}

/// The position of the last line feed of `s` before `n`; minus one where
/// there is none.
pub open spec fn last_feed(s: Seq<char>, n: int) -> int
    decreases n,
{
    if n <= 0 {
        -1
    } else if s[n - 1] == '\n' {
        n - 1
    } else {
        last_feed(s, n - 1)
    }
}

/// What `last_feed` finds is a line feed with none behind it.
pub proof fn lemma_last_feed(s: Seq<char>, n: int)
    requires
        0 <= n <= s.len(),
    ensures
        -1 <= last_feed(s, n) < n,
        last_feed(s, n) >= 0 ==> s[last_feed(s, n)] == '\n',
        forall|k: int| last_feed(s, n) < k < n ==> s[k] != '\n',
    decreases n,
{
    if n > 0 && s[n - 1] != '\n' {
        lemma_last_feed(s, n - 1);
    }
}

/// The rows of a text, joined by line feeds, are the text.
pub proof fn lemma_join_rows(s: Seq<char>)
    ensures
        rows_of(s).len() >= 1,
        join_rows(rows_of(s), rows_of(s).len() as int) == s,
    decreases s.len(),
{
    lemma_last_feed(s, s.len() as int);
    let j = last_feed(s, s.len() as int);
    if j < 0 {
        assert(has_no(s, '\n'));
        lemma_rows_of_plain(s);
    } else {
        let x = s.subrange(0, j);
        let row = s.subrange(j + 1, s.len() as int);
        assert(s =~= x + seq!['\n'] + row);
        assert(has_no(row, '\n')) by {
            assert forall|k: int| 0 <= k < row.len() implies #[trigger] row[k] != '\n' by {
                assert(row[k] == s[j + 1 + k]);
            }
        }
        lemma_rows_append(x, row);
        lemma_join_rows(x);
        let rx = rows_of(x);
        let rs = rows_of(s);
        assert(rs == rx.push(row));
        lemma_join_prefix(rs, rx, rx.len() as int);
    }
}

/// The join of the first `k` rows depends on those rows alone.
pub proof fn lemma_join_prefix(a: Seq<Seq<char>>, b: Seq<Seq<char>>, k: int)
    requires
        1 <= k <= a.len(),
        k <= b.len(),
        forall|i: int| 0 <= i < k ==> a[i] == b[i],
    ensures
        join_rows(a, k) == join_rows(b, k),
    decreases k,
{
    if k > 1 {
        lemma_join_prefix(a, b, k - 1);
    }
}

/// No row holds `c`.
pub open spec fn rows_hold_no(rows: Seq<Seq<char>>, c: char) -> bool {
    forall|r: int| 0 <= r < rows.len() ==> has_no(#[trigger] rows[r], c)
}

/// The pieces of a text without `c` are without `c`.
pub proof fn lemma_pieces_hold_no(s: Seq<char>, c: char, start: int, i: int, acc: Seq<Seq<char>>)
    requires
        has_no(s, c),
        0 <= start <= i <= s.len(),
        rows_hold_no(acc, c),
    ensures
        rows_hold_no(pieces(s, start, i, acc), c),
    decreases s.len() - i,
{
    if i >= s.len() {
        let last = s.subrange(start, s.len() as int);
        crate::text::lemma_has_no_subrange(s, c, start, s.len() as int);
        let all = acc.push(last);
        assert forall|r: int| 0 <= r < all.len() implies has_no(#[trigger] all[r], c) by {
            if r < acc.len() {
                assert(all[r] == acc[r]);
            }
        }
    } else if s[i] == '\n' {
        let line = s.subrange(start, i);
        crate::text::lemma_has_no_subrange(s, c, start, i);
        let next = acc.push(line);
        assert forall|r: int| 0 <= r < next.len() implies has_no(#[trigger] next[r], c) by {
            if r < acc.len() {
                assert(next[r] == acc[r]);
            }
        }
        lemma_pieces_hold_no(s, c, i + 1, i + 1, next);
    } else {
        lemma_pieces_hold_no(s, c, start, i + 1, acc);
    }
}

/// The rows of a text without `c` are without `c`.
pub proof fn lemma_rows_hold_no(s: Seq<char>, c: char)
    requires
        has_no(s, c),
    ensures
        rows_hold_no(rows_of(s), c),
{
    lemma_pieces_hold_no(s, c, 0, 0, Seq::empty());
}

/// The scan for pieces can go on to `e` where no line feed stands before
/// it.
pub proof fn lemma_pieces_advance(s: Seq<char>, start: int, i: int, e: int, acc: Seq<Seq<char>>)
    requires
        0 <= start <= i <= e <= s.len(),
        forall|k: int| i <= k < e ==> s[k] != '\n',
    ensures
        pieces(s, start, i, acc) == pieces(s, start, e, acc),
    decreases e - i,
{
    if i < e {
        lemma_pieces_advance(s, start, i + 1, e, acc);
    }
}

/// The pieces from the start of a piece on: where a line feed ends the
/// piece, the piece and the pieces behind the line feed; where none does,
/// the piece alone.
pub proof fn lemma_pieces_next(s: Seq<char>, start: int, e: int, acc: Seq<Seq<char>>)
    requires
        0 <= start <= e <= s.len(),
        forall|k: int| start <= k < e ==> s[k] != '\n',
        e < s.len() ==> s[e] == '\n',
    ensures
        e < s.len() ==> pieces(s, start, start, acc) == pieces(
            s,
            e + 1,
            e + 1,
            acc.push(s.subrange(start, e)),
        ),
        e == s.len() ==> pieces(s, start, start, acc) == acc.push(s.subrange(start, e)),
{
    lemma_pieces_advance(s, start, start, e, acc);
}

} // verus!
