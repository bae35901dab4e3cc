//! The canonical text of a decimal number.
//!
//! A number is held as the digits that were read, with an optional
//! fraction after a dot. Its canonical text drops what does not change its
//! value: the zeros before the first digit of the whole part, but for the
//! last digit, the zeros at the end of the fraction, and with a fraction of
//! zeros alone the dot as well.

use vstd::prelude::*;
use vstd::string::StrSliceExecFns;
use vstd::string::StringExecFns;

verus! {

/// The place of the first dot at or after `i`; the length of the text where
/// there is none.
pub open spec fn dot_from(text: Seq<char>, i: int) -> int
    decreases text.len() - i,
{
    if 0 <= i < text.len() && text[i] != '.' {
        dot_from(text, i + 1)
    } else {
        i
    }
}

/// The first place at or after `i` that is `limit` or holds another
/// character than `0`.
pub open spec fn zeros_end(text: Seq<char>, i: int, limit: int) -> int
    decreases limit - i,
{
    if 0 <= i < limit && limit <= text.len() && text[i] == '0' {
        zeros_end(text, i + 1, limit)
    } else {
        i
    }
}

/// The last place at or before `end` that is `floor` or follows another
/// character than `0`.
pub open spec fn zeros_start(text: Seq<char>, end: int, floor: int) -> int
    decreases end - floor,
{
    if 0 <= floor < end <= text.len() && text[end - 1] == '0' {
        zeros_start(text, end - 1, floor)
    } else {
        end
    }
}

/// The canonical text of the number that `text` spells.
pub open spec fn canonical_number(text: Seq<char>) -> Seq<char> {
    let dot = dot_from(text, 0);
    let start = zeros_end(text, 0, dot - 1);
    let end = zeros_start(text, text.len() as int, dot + 1);
    if end > dot + 1 {
        text.subrange(start, end)
    } else {
        text.subrange(start, dot)
    }
}

/// The canonical text of a number.
pub fn canonical_text(text: &str) -> (r: String)
    ensures
        r@ == canonical_number(text@),
{
    let len = text.unicode_len();
    let mut dot: usize = 0;
    while dot < len && text.get_char(dot) != '.'
        invariant
            len == text@.len(),
            dot <= len,
            dot_from(text@, dot as int) == dot_from(text@, 0),
        decreases len - dot,
    {
        dot += 1;
    }
    let mut start: usize = 0;
    while dot - start > 1 && text.get_char(start) == '0'
        invariant
            len == text@.len(),
            dot <= len,
            start <= dot,
            zeros_end(text@, start as int, dot - 1) == zeros_end(text@, 0, dot - 1),
        decreases dot - start,
    {
        start += 1;
    }
    let mut end: usize = len;
    while end - dot > 1 && text.get_char(end - 1) == '0'
        invariant
            len == text@.len(),
            dot <= len,
            end <= len,
            dot <= end,
            zeros_start(text@, end as int, dot + 1) == zeros_start(
                text@,
                text@.len() as int,
                dot + 1,
            ),
        decreases end,
    {
        end -= 1;
    }
    if end - dot > 1 {
        String::from_str(text.substring_char(start, end))
    } else {
        String::from_str(text.substring_char(start, dot))
    }
}

} // verus!
