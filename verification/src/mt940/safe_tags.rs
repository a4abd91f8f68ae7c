//! Every tag that the tokenizer cuts from a text without closing brace is
//! read back as it is written.

use vstd::prelude::*;
use crate::mt940::format::TagView;
use crate::mt940::retokenize::{all_safe, is_safe_body, is_safe_tag};
use crate::mt940::rows::{lemma_rows_append, lemma_rows_of_plain, rows_of};
use crate::mt940::tokenizer::{
    end_line, flush, is_continuation, lines_of, scan_lines, scan_tags, tag_code_len, tag_continued,
    tag_started, tokenize_text,
};
use crate::text::{has_no, lemma_has_no_concat, lemma_has_no_subrange};

verus! {

/// A line as the tokenizer sees it: without line break and without closing
/// brace.
pub open spec fn is_clean_line(line: Seq<char>) -> bool {
    has_no(line, '\n') && has_no(line, '\r') && has_no(line, '}')
}

/// Every line is clean.
pub open spec fn all_clean(lines: Seq<Seq<char>>) -> bool {
    forall|k: int| 0 <= k < lines.len() ==> is_clean_line(#[trigger] lines[k])
}

/// Clean lines and one more clean line are clean lines.
pub proof fn lemma_all_clean_push(lines: Seq<Seq<char>>, line: Seq<char>)
    requires
        all_clean(lines),
        is_clean_line(line),
    ensures
        all_clean(lines.push(line)),
{
    let next = lines.push(line);
    assert forall|k: int| 0 <= k < next.len() implies is_clean_line(#[trigger] next[k]) by {
        if k < lines.len() {
            assert(next[k] == lines[k]);
        }
    }
}

/// A part of a text without closing brace that holds no line break is a
/// clean line.
pub proof fn lemma_part_is_clean(s: Seq<char>, from: int, to: int)
    requires
        has_no(s, '}'),
        0 <= from <= to <= s.len(),
        forall|k: int| from <= k < to ==> s[k] != '\n' && s[k] != '\r',
    ensures
        is_clean_line(s.subrange(from, to)),
{
    let part = s.subrange(from, to);
    assert forall|k: int| 0 <= k < part.len() implies #[trigger] part[k] != '\n' && part[k]
        != '\r' && part[k] != '}' by {
        assert(part[k] == s[from + k]);
    }
}

/// The lines of a text without closing brace are clean.
pub proof fn lemma_scan_lines_clean(s: Seq<char>, start: int, i: int, acc: Seq<Seq<char>>)
    requires
        has_no(s, '}'),
        0 <= start <= i <= s.len(),
        forall|k: int| start <= k < i ==> s[k] != '\n' && s[k] != '\r',
        all_clean(acc),
    ensures
        all_clean(scan_lines(s, start, i, acc)),
    decreases s.len() - i,
{
    if i >= s.len() {
        if start < s.len() {
            lemma_part_is_clean(s, start, s.len() as int);
            lemma_all_clean_push(acc, s.subrange(start, s.len() as int));
        }
    } else if s[i] == '\r' && i + 1 < s.len() && s[i + 1] == '\n' {
        lemma_part_is_clean(s, start, i);
        lemma_all_clean_push(acc, s.subrange(start, i));
        lemma_scan_lines_clean(s, i + 2, i + 2, acc.push(s.subrange(start, i)));
    } else if s[i] == '\n' || s[i] == '\r' {
        lemma_part_is_clean(s, start, i);
        lemma_all_clean_push(acc, s.subrange(start, i));
        lemma_scan_lines_clean(s, i + 1, i + 1, acc.push(s.subrange(start, i)));
    } else {
        lemma_scan_lines_clean(s, start, i + 1, acc);
    }
}

/// Safe tags and one more safe tag are safe tags.
pub proof fn lemma_all_safe_push(tags: Seq<TagView>, t: TagView)
    requires
        all_safe(tags),
        is_safe_tag(t),
    ensures
        all_safe(tags.push(t)),
{
    let next = tags.push(t);
    assert forall|k: int| 0 <= k < next.len() implies is_safe_tag(#[trigger] next[k]) by {
        if k < tags.len() {
            assert(next[k] == tags[k]);
        }
    }
}

/// Safe tags behind safe tags are safe tags.
pub proof fn lemma_all_safe_concat(a: Seq<TagView>, b: Seq<TagView>)
    requires
        all_safe(a),
        all_safe(b),
    ensures
        all_safe(a + b),
{
    let next = a + b;
    assert forall|k: int| 0 <= k < next.len() implies is_safe_tag(#[trigger] next[k]) by {
        if k < a.len() {
            assert(next[k] == a[k]);
        } else {
            assert(next[k] == b[k - a.len()]);
        }
    }
}

/// A clean line is a safe body.
pub proof fn lemma_clean_line_is_safe_body(line: Seq<char>)
    requires
        is_clean_line(line),
    ensures
        is_safe_body(line),
{
    lemma_rows_of_plain(line);
}

/// The tag that a clean line starts is safe.
pub proof fn lemma_started_tag_is_safe(line: Seq<char>)
    requires
        is_clean_line(line),
        tag_code_len(line) > 0,
    ensures
        is_safe_tag(tag_started(line, tag_code_len(line))),
{
    let k = tag_code_len(line);
    let t = tag_started(line, k);
    assert(t.code[0] == line[1]);
    assert(t.code[1] == line[2]);
    if k == 3 {
        assert(t.code[2] == line[3]);
    }
    lemma_has_no_subrange(line, '\n', k + 2, line.len() as int);
    lemma_has_no_subrange(line, '\r', k + 2, line.len() as int);
    lemma_has_no_subrange(line, '}', k + 2, line.len() as int);
    lemma_clean_line_is_safe_body(t.body);
}

/// A safe body with a line feed and a clean line that continues a tag behind
/// it is a safe body.
pub proof fn lemma_continued_body_is_safe(body: Seq<char>, line: Seq<char>)
    requires
        is_safe_body(body),
        is_clean_line(line),
        is_continuation(line),
    ensures
        is_safe_body(body + seq!['\n'] + line),
{
    let feed = seq!['\n'];
    let next = body + feed + line;
    assert(has_no(feed, '\r') && has_no(feed, '}'));
    lemma_has_no_concat(body, feed, '\r');
    lemma_has_no_concat(body + feed, line, '\r');
    lemma_has_no_concat(body, feed, '}');
    lemma_has_no_concat(body + feed, line, '}');
    lemma_rows_append(body, line);
    let rows = rows_of(next);
    assert forall|k: int| 1 <= k < rows.len() implies is_continuation(#[trigger] rows[k]) by {
        if k < rows_of(body).len() {
            assert(rows[k] == rows_of(body)[k]);
        }
    }
}

/// The open tag, if there is one, is safe.
pub open spec fn is_safe_open(open: Option<TagView>) -> bool {
    match open {
        Some(t) => is_safe_tag(t),
        None => true,
    }
}

/// The tags of clean lines are safe.
pub proof fn lemma_scan_tags_safe(
    lines: Seq<Seq<char>>,
    i: int,
    acc: Seq<TagView>,
    open: Option<TagView>,
)
    requires
        all_clean(lines),
        0 <= i <= lines.len(),
        all_safe(acc),
        is_safe_open(open),
    ensures
        all_safe(scan_tags(lines, i, acc, open)),
    decreases lines.len() - i,
{
    assert(all_safe(flush(acc, open))) by {
        match open {
            Some(t) => {
                lemma_all_safe_push(acc, t);
            },
            None => {},
        }
    }
    if i >= lines.len() {
    } else if lines[i] == end_line() {
    } else if tag_code_len(lines[i]) > 0 {
        assert(is_clean_line(lines[i]));
        lemma_started_tag_is_safe(lines[i]);
        lemma_scan_tags_safe(
            lines,
            i + 1,
            flush(acc, open),
            Some(tag_started(lines[i], tag_code_len(lines[i]))),
        );
    } else {
        match open {
            Some(t) => {
                assert(is_clean_line(lines[i]));
                lemma_continued_body_is_safe(t.body, lines[i]);
                lemma_scan_tags_safe(lines, i + 1, acc, Some(tag_continued(t, lines[i])));
            },
            None => {
                lemma_scan_tags_safe(lines, i + 1, acc, None);
            },
        }
    }
}

/// The tags of a text without closing brace are safe.
pub proof fn lemma_tokenized_tags_are_safe(text: Seq<char>)
    requires
        has_no(text, '}'),
    ensures
        all_safe(tokenize_text(text)),
{
    lemma_scan_lines_clean(text, 0, 0, Seq::empty());
    lemma_scan_tags_safe(lines_of(text), 0, Seq::empty(), None);
}

} // verus!
