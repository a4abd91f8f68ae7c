//! The envelope: up to five blocks, each written `{n:content}`.

use vstd::prelude::*;
use vstd::slice::slice_subrange;
use crate::mt940::format::opt_text;
use crate::text::{
    char_is_digit, chars_of, digit_to_number, digit_value, find_char, has_no, index_from, is_digit,
    lemma_index_from, lemma_index_from_is, string_of,
};

verus! {

/// A block opens at `i`: a brace, a digit and a colon stand there.
pub open spec fn block_opens_at(s: Seq<char>, i: int) -> bool {
    0 <= i && i + 2 < s.len() && s[i] == '{' && is_digit(s[i + 1]) && s[i + 2] == ':'
}

/// The slots with `content` put where `digit` says; unchanged where `digit`
/// is not one of 1 to 5.
pub open spec fn place_block(
    slots: Seq<Option<Seq<char>>>,
    digit: int,
    content: Seq<char>,
) -> Seq<Option<Seq<char>>> {
    if 1 <= digit <= 5 {
        slots.update(digit - 1, Some(content))
    } else {
        slots
    }
}

/// The slots after every block from `i` on has been put in its place. A
/// block runs from its opening to the first closing brace after it; the scan
/// goes on behind that brace. An opening with no closing brace behind it ends
/// the scan, as no later block can close either.
pub open spec fn scan_blocks(s: Seq<char>, i: int, slots: Seq<Option<Seq<char>>>) -> Seq<
    Option<Seq<char>>,
>
    decreases s.len() - i,
{
    if i < 0 || i >= s.len() {
        slots
    } else if block_opens_at(s, i) {
        let j = index_from(s, '}', i + 3);
        if i + 3 <= j < s.len() {
            scan_blocks(s, j + 1, place_block(slots, digit_value(s[i + 1]), s.subrange(i + 3, j)))
        } else {
            slots
        }
    } else {
        scan_blocks(s, i + 1, slots)
    }
}

/// Five empty slots.
pub open spec fn no_blocks() -> Seq<Option<Seq<char>>> {
    seq![None, None, None, None, None]
}

/// The five slots of a statement text: slot `n - 1` holds the content of the
/// last block numbered `n`.
pub open spec fn split_blocks(s: Seq<char>) -> Seq<Option<Seq<char>>> {
    scan_blocks(s, 0, no_blocks())
}

/// The characters of each slot.
pub open spec fn slot_texts(v: Seq<Option<String>>) -> Seq<Option<Seq<char>>> {
    Seq::new(v.len(), |k: int| opt_text(v[k]))
}

/// Scanning keeps five slots five.
pub proof fn lemma_scan_blocks_len(s: Seq<char>, i: int, slots: Seq<Option<Seq<char>>>)
    requires
        slots.len() == 5,
    ensures
        scan_blocks(s, i, slots).len() == 5,
    decreases s.len() - i,
{
    if i < 0 || i >= s.len() {
    } else if block_opens_at(s, i) {
        let j = index_from(s, '}', i + 3);
        if i + 3 <= j < s.len() {
            lemma_scan_blocks_len(
                s,
                j + 1,
                place_block(slots, digit_value(s[i + 1]), s.subrange(i + 3, j)),
            );
        }
    } else {
        lemma_scan_blocks_len(s, i + 1, slots);
    }
}

/// Splits the characters of a statement text into its five slots.
pub fn split_chars(s: &[char]) -> (r: Vec<Option<String>>)
    ensures
        r@.len() == 5,
        slot_texts(r@) == split_blocks(s@),
{
    let n: usize = s.len();
    let mut slots: Vec<Option<String>> = Vec::new();
    slots.push(None);
    slots.push(None);
    slots.push(None);
    slots.push(None);
    slots.push(None);
    proof {
        assert(slot_texts(slots@) =~= no_blocks());
    }
    let mut i: usize = 0;
    while i < n
        invariant
            n == s@.len(),
            i <= n,
            slots@.len() == 5,
            split_blocks(s@) == scan_blocks(s@, i as int, slot_texts(slots@)),
        decreases n - i,
    {
        if n - i > 2 && s[i] == '{' && char_is_digit(s[i + 1]) && s[i + 2] == ':' {
            let j: usize = find_char(s, '}', i + 3);
            if j < n {
                let d: u8 = digit_to_number(s[i + 1]);
                if 1 <= d && d <= 5 {
                    let ghost before = slot_texts(slots@);
                    let content: String = string_of(slice_subrange(s, i + 3, j));
                    slots[(d - 1) as usize] = Some(content);
                    proof {
                        assert(slot_texts(slots@) =~= place_block(
                            before,
                            d as int,
                            s@.subrange(i + 3, j as int),
                        ));
                    }
                }
                i = j + 1;
            } else {
                i = n;
            }
        } else {
            i += 1;
        }
    }
    slots
}

/// Splits a statement text into its five slots. Slot `n - 1` holds the
/// content of block `n`; a block with a digit outside 1 to 5 is passed over;
/// a slot whose block is absent is `None`.
pub fn split_to_blocks(data: &str) -> (r: Vec<Option<String>>)
    ensures
        r@.len() == 5,
        slot_texts(r@) == split_blocks(data@),
{
    let chars = chars_of(data);
    split_chars(chars.as_slice())
}

/// No slot holds a closing brace.
pub open spec fn slots_hold_no_brace(slots: Seq<Option<Seq<char>>>) -> bool {
    forall|k: int|
        0 <= k < slots.len() ==> match #[trigger] slots[k] {
            Some(c) => has_no(c, '}'),
            None => true,
        }
}

/// The content of a block holds no closing brace: it ends at the first one.
pub proof fn lemma_scan_blocks_no_brace(s: Seq<char>, i: int, slots: Seq<Option<Seq<char>>>)
    requires
        slots.len() == 5,
        slots_hold_no_brace(slots),
    ensures
        slots_hold_no_brace(scan_blocks(s, i, slots)),
    decreases s.len() - i,
{
    if i < 0 || i >= s.len() {
    } else if block_opens_at(s, i) {
        let j = index_from(s, '}', i + 3);
        if i + 3 <= j < s.len() {
            lemma_index_from(s, '}', i + 3);
            let content = s.subrange(i + 3, j);
            assert(has_no(content, '}')) by {
                assert forall|k: int| 0 <= k < content.len() implies #[trigger] content[k]
                    != '}' by {
                    assert(content[k] == s[i + 3 + k]);
                }
            }
            let next = place_block(slots, digit_value(s[i + 1]), content);
            assert(slots_hold_no_brace(next)) by {
                assert forall|k: int| 0 <= k < next.len() implies match #[trigger] next[k] {
                    Some(c) => has_no(c, '}'),
                    None => true,
                } by {
                    if next[k] != slots[k] {
                        assert(next[k] == Some(content));
                    }
                }
            }
            lemma_scan_blocks_no_brace(s, j + 1, next);
        }
    } else {
        lemma_scan_blocks_no_brace(s, i + 1, slots);
    }
}

/// Where a block without a closing brace in its content stands at `i`, the
/// scan puts the content in its slot and goes on behind the block.
pub proof fn lemma_scan_block_at(
    s: Seq<char>,
    i: int,
    digit: char,
    content: Seq<char>,
    slots: Seq<Option<Seq<char>>>,
)
    requires
        0 <= i,
        i + 4 + content.len() <= s.len(),
        s[i] == '{',
        s[i + 1] == digit,
        s[i + 2] == ':',
        s.subrange(i + 3, i + 3 + content.len()) == content,
        s[i + 3 + content.len()] == '}',
        is_digit(digit),
        has_no(content, '}'),
    ensures
        scan_blocks(s, i, slots) == scan_blocks(
            s,
            i + 4 + content.len(),
            place_block(slots, digit_value(digit), content),
        ),
{
    let j = i + 3 + content.len();
    assert forall|k: int| i + 3 <= k < j implies s[k] != '}' by {
        assert(content[k - (i + 3)] == s[k]);
    }
    lemma_index_from_is(s, '}', i + 3, j);
    assert(block_opens_at(s, i));
}

} // verus!
