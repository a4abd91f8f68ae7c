//! Tags that were written are the tags that are read back.

use vstd::prelude::*;
use crate::mt940::format::TagView;
use crate::mt940::lines::{all_rows, lemma_lines_of_block, tag_head, tag_rows, tags_hold_no_return};
use crate::mt940::rows::{join_rows, lemma_join_rows, lemma_rows_head, rows_of};
use crate::mt940::tokenizer::{
    end_line, flush, is_continuation, scan_tags, tag_code_len, tag_continued, tag_started,
    tokenize_text,
};
use crate::mt940::writer::render_tags;
use crate::text::{has_no, is_digit, is_upper};

verus! {

/// `code` is a tag code: two digits, or two digits and an upper case letter.
pub open spec fn is_tag_code(code: Seq<char>) -> bool {
    ||| code.len() == 2 && is_digit(code[0]) && is_digit(code[1])
    ||| code.len() == 3 && is_digit(code[0]) && is_digit(code[1]) && is_upper(code[2])
}

/// A body that is read back as it is written: it holds no carriage return
/// and no closing brace, and each of its rows but the first continues a
/// tag.
pub open spec fn is_safe_body(body: Seq<char>) -> bool {
    &&& has_no(body, '\r')
    &&& has_no(body, '}')
    &&& forall|k: int| 1 <= k < rows_of(body).len() ==> is_continuation(#[trigger] rows_of(body)[k])
}

/// A tag that is read back as it is written.
pub open spec fn is_safe_tag(t: TagView) -> bool {
    is_tag_code(t.code) && is_safe_body(t.body)
}

/// Tags that are read back as they are written.
pub open spec fn all_safe(tags: Seq<TagView>) -> bool {
    forall|k: int| 0 <= k < tags.len() ==> is_safe_tag(#[trigger] tags[k])
}

/// The finished tags and the open tag after one more line that is not the
/// end line.
pub open spec fn step_tag(state: (Seq<TagView>, Option<TagView>), line: Seq<char>) -> (
    Seq<TagView>,
    Option<TagView>,
) {
    if tag_code_len(line) > 0 {
        (flush(state.0, state.1), Some(tag_started(line, tag_code_len(line))))
    } else {
        match state.1 {
            Some(t) => (state.0, Some(tag_continued(t, line))),
            None => state,
        }
    }
}

/// The finished tags and the open tag after the first `n` lines.
pub open spec fn run_tags(lines: Seq<Seq<char>>, n: int, state: (Seq<TagView>, Option<TagView>)) -> (
    Seq<TagView>,
    Option<TagView>,
)
    decreases n,
{
    if n <= 0 {
        state
    } else {
        step_tag(run_tags(lines, n - 1, state), lines[n - 1])
    }
}

/// None of the first `n` lines is the end line.
pub open spec fn no_end_line(lines: Seq<Seq<char>>, n: int) -> bool {
    forall|k: int| 0 <= k < n ==> #[trigger] lines[k] != end_line()
}

/// The scan of lines from the start is the scan from `n` on in the state
/// after the first `n` lines, where none of those is the end line.
pub proof fn lemma_scan_is_run(
    lines: Seq<Seq<char>>,
    n: int,
    acc: Seq<TagView>,
    open: Option<TagView>,
)
    requires
        0 <= n <= lines.len(),
        no_end_line(lines, n),
    ensures
        scan_tags(lines, 0, acc, open) == scan_tags(
            lines,
            n,
            run_tags(lines, n, (acc, open)).0,
            run_tags(lines, n, (acc, open)).1,
        ),
    decreases n,
{
    if n > 0 {
        lemma_scan_is_run(lines, n - 1, acc, open);
        assert(lines[n - 1] != end_line());
    }
}

/// The state after the first `n` lines depends on those lines alone.
pub proof fn lemma_run_prefix(
    x: Seq<Seq<char>>,
    y: Seq<Seq<char>>,
    n: int,
    state: (Seq<TagView>, Option<TagView>),
)
    requires
        0 <= n <= x.len(),
        n <= y.len(),
        forall|k: int| 0 <= k < n ==> x[k] == y[k],
    ensures
        run_tags(x, n, state) == run_tags(y, n, state),
    decreases n,
{
    if n > 0 {
        lemma_run_prefix(x, y, n - 1, state);
    }
}

/// The state after lines behind other lines is the state after the second,
/// started in the state after the first.
pub proof fn lemma_run_concat(
    x: Seq<Seq<char>>,
    y: Seq<Seq<char>>,
    n: int,
    state: (Seq<TagView>, Option<TagView>),
)
    requires
        0 <= n <= y.len(),
    ensures
        run_tags(x + y, x.len() + n, state) == run_tags(
            y,
            n,
            run_tags(x, x.len() as int, state),
        ),
    decreases n,
{
    if n == 0 {
        lemma_run_prefix(x + y, x, x.len() as int, state);
    } else {
        lemma_run_concat(x, y, n - 1, state);
        assert((x + y)[x.len() + n - 1] == y[n - 1]);
    }
}

/// A line that starts with the head of a tag code starts a tag of that code,
/// with the rest of the line as its body.
pub proof fn lemma_head_starts_tag(code: Seq<char>, rest: Seq<char>)
    requires
        is_tag_code(code),
    ensures
        tag_code_len(tag_head(code) + rest) == code.len(),
        tag_started(tag_head(code) + rest, code.len() as int) == (TagView { code, body: rest }),
        tag_head(code) + rest != end_line(),
{
    let line = tag_head(code) + rest;
    let k = code.len() as int;
    assert(line[0] == ':');
    assert(line[1] == code[0]);
    assert(line[2] == code[1]);
    if k == 3 {
        assert(line[3] == code[2]);
        assert(line[4] == ':');
        assert(!(line[3] == ':'));
    } else {
        assert(line[3] == ':');
    }
    assert(line.subrange(1, 1 + k) =~= code);
    assert(line.subrange(k + 2, line.len() as int) =~= rest);
}

/// The state after the first `j` rows of a safe tag: what was open is
/// finished, and the tag is open with its first `j` rows as body.
pub proof fn lemma_run_tag_rows(t: TagView, j: int, state: (Seq<TagView>, Option<TagView>))
    requires
        is_safe_tag(t),
        1 <= j <= rows_of(t.body).len(),
    ensures
        tag_rows(t).len() == rows_of(t.body).len(),
        run_tags(tag_rows(t), j, state) == (
            flush(state.0, state.1),
            Some(TagView { code: t.code, body: join_rows(rows_of(t.body), j) }),
        ),
    decreases j,
{
    let head = tag_head(t.code);
    assert(has_no(head, '\n')) by {
        assert forall|i: int| 0 <= i < head.len() implies #[trigger] head[i] != '\n' by {
            if 1 <= i <= t.code.len() {
                assert(head[i] == t.code[i - 1]);
            }
        }
    }
    lemma_rows_head(head, t.body);
    let rows = tag_rows(t);
    let br = rows_of(t.body);
    if j == 1 {
        lemma_head_starts_tag(t.code, br[0]);
        assert(run_tags(rows, 0, state) == state);
    } else {
        lemma_run_tag_rows(t, j - 1, state);
        assert(rows[j - 1] == br[j - 1]);
        assert(is_continuation(br[j - 1]));
    }
}

/// The state after all rows of a safe tag: what was open is finished, and
/// the tag is open.
pub proof fn lemma_run_tag(t: TagView, state: (Seq<TagView>, Option<TagView>))
    requires
        is_safe_tag(t),
    ensures
        run_tags(tag_rows(t), tag_rows(t).len() as int, state) == (
            flush(state.0, state.1),
            Some(t),
        ),
        no_end_line(tag_rows(t), tag_rows(t).len() as int),
        tag_rows(t).len() >= 1,
{
    lemma_join_rows(t.body);
    lemma_run_tag_rows(t, rows_of(t.body).len() as int, state);
    let head = tag_head(t.code);
    assert(has_no(head, '\n')) by {
        assert forall|i: int| 0 <= i < head.len() implies #[trigger] head[i] != '\n' by {
            if 1 <= i <= t.code.len() {
                assert(head[i] == t.code[i - 1]);
            }
        }
    }
    lemma_rows_head(head, t.body);
    let rows = tag_rows(t);
    let br = rows_of(t.body);
    assert forall|k: int| 0 <= k < rows.len() implies #[trigger] rows[k] != end_line() by {
        if k == 0 {
            lemma_head_starts_tag(t.code, br[0]);
        } else {
            assert(rows[k] == br[k]);
            assert(is_continuation(br[k]));
        }
    }
}

/// The state after all rows of tags: all but the last are finished, and the
/// last is open.
pub open spec fn state_after(tags: Seq<TagView>) -> (Seq<TagView>, Option<TagView>) {
    if tags.len() == 0 {
        (Seq::empty(), None)
    } else {
        (tags.drop_last(), Some(tags.last()))
    }
}

/// The state after all rows of safe tags is `state_after`, and no row is the
/// end line.
pub proof fn lemma_run_all_rows(tags: Seq<TagView>)
    requires
        all_safe(tags),
    ensures
        run_tags(all_rows(tags), all_rows(tags).len() as int, (Seq::empty(), None)) == state_after(
            tags,
        ),
        no_end_line(all_rows(tags), all_rows(tags).len() as int),
    decreases tags.len(),
{
    let start = (Seq::<TagView>::empty(), None::<TagView>);
    if tags.len() > 0 {
        let before = tags.drop_last();
        let t = tags.last();
        assert(all_safe(before)) by {
            assert forall|k: int| 0 <= k < before.len() implies is_safe_tag(
                #[trigger] before[k],
            ) by {
                assert(before[k] == tags[k]);
            }
        }
        assert(is_safe_tag(t));
        lemma_run_all_rows(before);
        let x = all_rows(before);
        let y = tag_rows(t);
        lemma_run_tag(t, state_after(before));
        lemma_run_concat(x, y, y.len() as int, start);
        let mid = state_after(before);
        assert(flush(mid.0, mid.1) =~= before);
        let rows = all_rows(tags);
        assert forall|k: int| 0 <= k < rows.len() implies #[trigger] rows[k] != end_line() by {
            if k < x.len() {
                assert(rows[k] == x[k]);
            } else {
                assert(rows[k] == y[k - x.len()]);
            }
        }
    }
}

/// A safe tag holds no carriage return.
pub proof fn lemma_safe_tags_hold_no_return(tags: Seq<TagView>)
    requires
        all_safe(tags),
    ensures
        tags_hold_no_return(tags),
{
    assert forall|k: int| 0 <= k < tags.len() implies has_no((#[trigger] tags[k]).code, '\r')
        && has_no(tags[k].body, '\r') by {
        assert(is_safe_tag(tags[k]));
        let code = tags[k].code;
        assert forall|i: int| 0 <= i < code.len() implies #[trigger] code[i] != '\r' by {
            assert(is_digit(code[i]) || is_upper(code[i]));
        }
    }
}

/// Safe tags, written as block four with its end line and cut into tags
/// again, are the same tags.
pub proof fn lemma_written_tags_are_read(tags: Seq<TagView>)
    requires
        all_safe(tags),
    ensures
        tokenize_text(render_tags(tags) + end_line()) == tags,
{
    lemma_safe_tags_hold_no_return(tags);
    lemma_lines_of_block(tags);
    lemma_run_all_rows(tags);
    let rows = all_rows(tags);
    let lines = rows.push(end_line());
    let n = rows.len() as int;
    let start = (Seq::<TagView>::empty(), None::<TagView>);
    assert(no_end_line(lines, n)) by {
        assert forall|k: int| 0 <= k < n implies #[trigger] lines[k] != end_line() by {
            assert(lines[k] == rows[k]);
        }
    }
    lemma_scan_is_run(lines, n, Seq::empty(), None);
    lemma_run_prefix(lines, rows, n, start);
    let after = state_after(tags);
    assert(lines[n] == end_line());
    assert(scan_tags(lines, n, after.0, after.1) == flush(after.0, after.1));
    assert(flush(after.0, after.1) =~= tags);
}

} // verus!
