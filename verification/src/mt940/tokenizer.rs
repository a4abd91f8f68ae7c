//! Block four cut into tags: lines that start a tag, and the lines that
//! continue it.

use vstd::prelude::*;
use crate::mt940::format::{tag_views, Tag, TagView};
use crate::text::{
    char_is_digit, char_is_upper, chars_of, copy_range, is_digit, is_upper, push_all, string_of,
};

verus! {

/// The lines of `s` from the line that starts at `start`, scanned from `i`
/// on, behind the lines `acc`. A line ends at a line feed, at a carriage
/// return, or at the two together; what stands behind the last line break is
/// a line if it is not empty.
pub open spec fn scan_lines(s: Seq<char>, start: int, i: int, acc: Seq<Seq<char>>) -> Seq<
    Seq<char>,
>
    decreases s.len() - i,
{
    if i < 0 || i >= s.len() || start < 0 || start > i {
        if 0 <= start < s.len() {
            acc.push(s.subrange(start, s.len() as int))
        } else {
            acc
        }
    } else if s[i] == '\r' && i + 1 < s.len() && s[i + 1] == '\n' {
        scan_lines(s, i + 2, i + 2, acc.push(s.subrange(start, i)))
    } else if s[i] == '\n' || s[i] == '\r' {
        scan_lines(s, i + 1, i + 1, acc.push(s.subrange(start, i)))
    } else {
        scan_lines(s, start, i + 1, acc)
    }
}

/// The lines of a text, without their line breaks.
pub open spec fn lines_of(s: Seq<char>) -> Seq<Seq<char>> {
    scan_lines(s, 0, 0, Seq::empty())
}

/// The length of the tag code that `line` starts with: a colon, two digits,
/// at most one upper case letter, a colon. Zero where the line starts no
/// tag.
pub open spec fn tag_code_len(line: Seq<char>) -> int {
    if line.len() >= 4 && line[0] == ':' && is_digit(line[1]) && is_digit(line[2]) && line[3]
        == ':' {
        2
    } else if line.len() >= 5 && line[0] == ':' && is_digit(line[1]) && is_digit(line[2])
        && is_upper(line[3]) && line[4] == ':' {
        3
    } else {
        0
    }
}

/// The tag that a line with a code of length `k` starts.
pub open spec fn tag_started(line: Seq<char>, k: int) -> TagView {
    TagView { code: line.subrange(1, 1 + k), body: line.subrange(k + 2, line.len() as int) }
}

/// A tag with one more line under it.
pub open spec fn tag_continued(t: TagView, line: Seq<char>) -> TagView {
    TagView { code: t.code, body: t.body + seq!['\n'] + line }
}

/// The line that ends block four.
pub open spec fn end_line() -> Seq<char> {
    seq!['-']
}

/// A line that continues a tag: it starts no tag and is not the end line.
pub open spec fn is_continuation(line: Seq<char>) -> bool {
    tag_code_len(line) == 0 && line != end_line()
}

/// The finished tags with the open one, if there is one, behind them.
pub open spec fn flush(acc: Seq<TagView>, open: Option<TagView>) -> Seq<TagView> {
    match open {
        Some(t) => acc.push(t),
        None => acc,
    }
}

/// The tags of the lines from `i` on, behind the finished tags `acc` and the
/// open tag. A line that starts a tag closes the open one; any other line
/// continues the open tag, or is dropped where none is open; the end line
/// stops the scan.
pub open spec fn scan_tags(
    lines: Seq<Seq<char>>,
    i: int,
    acc: Seq<TagView>,
    open: Option<TagView>,
) -> Seq<TagView>
    decreases lines.len() - i,
{
    if i < 0 || i >= lines.len() {
        flush(acc, open)
    } else if lines[i] == end_line() {
        flush(acc, open)
    } else if tag_code_len(lines[i]) > 0 {
        scan_tags(
            lines,
            i + 1,
            flush(acc, open),
            Some(tag_started(lines[i], tag_code_len(lines[i]))),
        )
    } else {
        match open {
            Some(t) => scan_tags(lines, i + 1, acc, Some(tag_continued(t, lines[i]))),
            None => scan_tags(lines, i + 1, acc, None),
        }
    }
}

/// The tags of the text of block four, in the order in which they stand.
pub open spec fn tokenize_text(text: Seq<char>) -> Seq<TagView> {
    scan_tags(lines_of(text), 0, Seq::empty(), None)
}

/// The characters of each row.
pub open spec fn rows(v: Seq<Vec<char>>) -> Seq<Seq<char>> {
    Seq::new(v.len(), |k: int| v[k]@)
}

/// Cuts a text into its lines.
pub fn split_lines(s: &[char]) -> (r: Vec<Vec<char>>)
    ensures
        rows(r@) == lines_of(s@),
{
    let n: usize = s.len();
    let mut out: Vec<Vec<char>> = Vec::new();
    let mut start: usize = 0;
    let mut i: usize = 0;
    proof {
        assert(rows(out@) =~= Seq::<Seq<char>>::empty());
    }
    while i < n
        invariant
            n == s@.len(),
            start <= i <= n,
            lines_of(s@) == scan_lines(s@, start as int, i as int, rows(out@)),
        decreases n - i,
    {
        let c: char = s[i];
        if c == '\n' || c == '\r' {
            let ghost before = rows(out@);
            let line: Vec<char> = copy_range(s, start, i);
            out.push(line);
            proof {
                assert(rows(out@) =~= before.push(s@.subrange(start as int, i as int)));
            }
            if c == '\r' && n - i > 1 && s[i + 1] == '\n' {
                i += 2;
            } else {
                i += 1;
            }
            start = i;
        } else {
            i += 1;
        }
    }
    if start < n {
        let ghost before = rows(out@);
        let line: Vec<char> = copy_range(s, start, n);
        out.push(line);
        proof {
            assert(rows(out@) =~= before.push(s@.subrange(start as int, n as int)));
        }
    }
    out
}

/// The length of the tag code that a line starts with, or zero.
pub fn tag_code_length(line: &[char]) -> (r: usize)
    ensures
        r as int == tag_code_len(line@),
        r == 0 || r == 2 || r == 3,
{
    let n: usize = line.len();
    if n >= 4 && line[0] == ':' && char_is_digit(line[1]) && char_is_digit(line[2]) {
        if line[3] == ':' {
            return 2;
        }
        if n >= 5 && char_is_upper(line[3]) && line[4] == ':' {
            return 3;
        }
    }
    0
}

/// Tells whether a line continues a tag.
pub fn continues_tag(line: &[char]) -> (r: bool)
    ensures
        r == is_continuation(line@),
{
    if line.len() == 1 && line[0] == '-' {
        proof {
            assert(line@ =~= end_line());
        }
        return false;
    }
    proof {
        if line@ == end_line() {
            assert(line@.len() == 1 && line@[0] == '-');
        }
    }
    tag_code_length(line) == 0
}

/// Cuts lines into tags.
pub fn tokenize_lines(lines: &Vec<Vec<char>>) -> (r: Vec<Tag>)
    ensures
        tag_views(r@) == scan_tags(rows(lines@), 0, Seq::empty(), None),
{
    let n: usize = lines.len();
    let mut acc: Vec<Tag> = Vec::new();
    let mut code: Vec<char> = Vec::new();
    let mut body: Vec<char> = Vec::new();
    let mut is_open: bool = false;
    let mut i: usize = 0;
    let mut stopped: bool = false;
    let ghost all = rows(lines@);
    proof {
        assert(tag_views(acc@) =~= Seq::<TagView>::empty());
    }
    while i < n && !stopped
        invariant
            n == lines@.len(),
            all == rows(lines@),
            i <= n,
            !stopped ==> scan_tags(all, 0, Seq::empty(), None) == scan_tags(
                all,
                i as int,
                tag_views(acc@),
                if is_open {
                    Some(TagView { code: code@, body: body@ })
                } else {
                    None
                },
            ),
            stopped ==> scan_tags(all, 0, Seq::empty(), None) == flush(
                tag_views(acc@),
                if is_open {
                    Some(TagView { code: code@, body: body@ })
                } else {
                    None
                },
            ),
        decreases n - i, if stopped { 0int } else { 1int },
    {
        let line: &[char] = lines[i].as_slice();
        assert(all[i as int] == line@);
        let len: usize = line.len();
        if len == 1 && line[0] == '-' {
            proof {
                assert(line@ =~= end_line());
            }
            stopped = true;
        } else {
            proof {
                if line@ == end_line() {
                    assert(line@.len() == 1 && line@[0] == '-');
                }
            }
            let k: usize = tag_code_length(line);
            if k > 0 {
                if is_open {
                    let ghost before = tag_views(acc@);
                    let t = Tag {
                        code: string_of(code.as_slice()),
                        body: string_of(body.as_slice()),
                    };
                    acc.push(t);
                    proof {
                        assert(tag_views(acc@) =~= before.push(
                            TagView { code: code@, body: body@ },
                        ));
                    }
                }
                code = copy_range(line, 1, 1 + k);
                body = copy_range(line, k + 2, len);
                is_open = true;
            } else if is_open {
                let ghost before = body@;
                body.push('\n');
                push_all(&mut body, line);
                proof {
                    assert(body@ =~= before + seq!['\n'] + line@);
                }
            }
            i += 1;
        }
    }
    if is_open {
        let ghost before = tag_views(acc@);
        let t = Tag { code: string_of(code.as_slice()), body: string_of(body.as_slice()) };
        acc.push(t);
        proof {
            assert(tag_views(acc@) =~= before.push(TagView { code: code@, body: body@ }));
        }
    }
    acc
}

/// Cuts the text of block four into its tags. A line `:code:rest` starts a
/// tag; each line after it that starts none is put under it behind a line
/// feed; lines before the first tag are dropped; a line that holds only `-`
/// ends the block.
pub fn tokenize(text: &str) -> (r: Vec<Tag>)
    ensures
        tag_views(r@) == tokenize_text(text@),
{
    let chars = chars_of(text);
    let lines = split_lines(chars.as_slice());
    tokenize_lines(&lines)
}

} // verus!
