//! Lines and columns as functions of a byte offset, and the cursor that keeps
//! them up to date while the scan moves forward.

use vstd::prelude::*;

verus! {

/// The line feed, the only byte that ends a line.
pub const NEWLINE: u8 = 10;

/// Offsets of the line feeds of `s` that lie below `upto`, in ascending order.
pub open spec fn newline_offsets(s: Seq<u8>, upto: int) -> Seq<usize>
    decreases upto,
{
    if upto <= 0 {
        Seq::empty()
    } else if upto <= s.len() && s[upto - 1] == NEWLINE {
        newline_offsets(s, upto - 1).push((upto - 1) as usize)
    } else {
        newline_offsets(s, upto - 1)
    }
}

/// The number, from one, of the line that holds offset `pos`.
pub open spec fn line_at(s: Seq<u8>, pos: int) -> int {
    newline_offsets(s, pos).len() as int + 1
}

/// The offset at which the line that holds offset `pos` begins: one past the
/// last line feed below `pos`, or zero.
pub open spec fn line_start_at(s: Seq<u8>, pos: int) -> int
    decreases pos,
{
    if pos <= 0 {
        0
    } else if pos <= s.len() && s[pos - 1] == NEWLINE {
        pos
    } else {
        line_start_at(s, pos - 1)
    }
}

/// The column, from zero, of offset `pos`: its distance in bytes from the start
/// of its line.
pub open spec fn col_at(s: Seq<u8>, pos: int) -> int {
    pos - line_start_at(s, pos)
}

/// No line feed in `s` from `from` up to, not including, `to`.
pub open spec fn unbroken(s: Seq<u8>, from: int, to: int) -> bool {
    forall|i: int| from <= i < to && 0 <= i < s.len() ==> s[i] != NEWLINE
}

/// Over a stretch without a line feed neither the line nor its start changes.
pub proof fn lemma_unbroken_keeps_line(s: Seq<u8>, from: int, to: int)
    requires
        0 <= from <= to <= s.len(),
        unbroken(s, from, to),
    ensures
        newline_offsets(s, to) == newline_offsets(s, from),
        line_start_at(s, to) == line_start_at(s, from),
    decreases to - from,
{
    if from < to {
        assert(s[to - 1] != NEWLINE);
        lemma_unbroken_keeps_line(s, from, to - 1);
    }
}

/// There are no more line feeds below an offset than bytes.
pub proof fn lemma_newline_count_bound(s: Seq<u8>, upto: int)
    requires
        0 <= upto,
    ensures
        newline_offsets(s, upto).len() <= upto,
    decreases upto,
{
    if upto > 0 {
        lemma_newline_count_bound(s, upto - 1);
    }
}

/// A line begins at or before every offset on it.
pub proof fn lemma_line_start_bound(s: Seq<u8>, pos: int)
    requires
        0 <= pos,
    ensures
        0 <= line_start_at(s, pos) <= pos,
    decreases pos,
{
    if pos > 0 {
        lemma_line_start_bound(s, pos - 1);
    }
}

/// Every recorded offset is that of a line feed below `upto`, and the offsets
/// ascend strictly.
pub proof fn lemma_newline_offsets_ascend(s: Seq<u8>, upto: int)
    requires
        0 <= upto <= s.len(),
        s.len() <= usize::MAX,
    ensures
        forall|k: int|
            0 <= k < newline_offsets(s, upto).len() ==> {
                &&& 0 <= #[trigger] newline_offsets(s, upto)[k] < upto
                &&& s[newline_offsets(s, upto)[k] as int] == NEWLINE
            },
        forall|j: int, k: int|
            0 <= j < k < newline_offsets(s, upto).len() ==> newline_offsets(s, upto)[j]
                < newline_offsets(s, upto)[k],
    decreases upto,
{
    if upto > 0 {
        lemma_newline_offsets_ascend(s, upto - 1);
        let before = newline_offsets(s, upto - 1);
        let now = newline_offsets(s, upto);
        assert forall|k: int| 0 <= k < now.len() implies {
            &&& 0 <= #[trigger] now[k] < upto
            &&& s[now[k] as int] == NEWLINE
        } by {
            if k < before.len() {
                assert(now[k] == before[k]);
            }
        }
        assert forall|j: int, k: int| 0 <= j < k < now.len() implies now[j] < now[k] by {
            assert(now[j] == before[j]);
            if k < before.len() {
                assert(now[k] == before[k]);
            }
        }
    }
}

/// The line feeds below an offset are the first of those below a later one.
pub proof fn lemma_newline_offsets_prefix(s: Seq<u8>, pos: int, upto: int)
    requires
        0 <= pos <= upto,
    ensures
        newline_offsets(s, pos).len() <= newline_offsets(s, upto).len(),
        newline_offsets(s, pos) == newline_offsets(s, upto).subrange(
            0,
            newline_offsets(s, pos).len() as int,
        ),
    decreases upto - pos,
{
    if pos < upto {
        lemma_newline_offsets_prefix(s, pos, upto - 1);
        assert(newline_offsets(s, pos) =~= newline_offsets(s, upto).subrange(
            0,
            newline_offsets(s, pos).len() as int,
        ));
    } else {
        assert(newline_offsets(s, pos) =~= newline_offsets(s, upto).subrange(
            0,
            newline_offsets(s, pos).len() as int,
        ));
    }
}

/// A line begins one past the last line feed below it, or at zero when there is
/// none.
pub proof fn lemma_line_start_from_breaks(s: Seq<u8>, pos: int)
    requires
        0 <= pos <= s.len(),
        s.len() <= usize::MAX,
    ensures
        line_start_at(s, pos) == if newline_offsets(s, pos).len() == 0 {
            0
        } else {
            newline_offsets(s, pos).last() + 1
        },
    decreases pos,
{
    if pos > 0 {
        lemma_line_start_from_breaks(s, pos - 1);
    }
}

/// The number of line feeds in `s` from `from` up to, not including, `to`.
pub open spec fn line_feeds_in(s: Seq<u8>, from: int, to: int) -> nat
    decreases to - from,
{
    if to <= from {
        0
    } else if 0 < to <= s.len() && s[to - 1] == NEWLINE {
        line_feeds_in(s, from, to - 1) + 1
    } else {
        line_feeds_in(s, from, to - 1)
    }
}

/// From one offset to a later one the line number grows by the number of line
/// feeds between them, and so does the record of line feeds.
pub proof fn lemma_lines_count_line_feeds(s: Seq<u8>, from: int, to: int)
    requires
        0 <= from <= to,
    ensures
        line_at(s, to) == line_at(s, from) + line_feeds_in(s, from, to),
        newline_offsets(s, to).len() == newline_offsets(s, from).len() + line_feeds_in(s, from, to),
    decreases to - from,
{
    if from < to {
        lemma_lines_count_line_feeds(s, from, to - 1);
    }
}

/// Right after a line feed a new line begins: the column is zero, the line
/// number is one more than that of the line feed, and the line feed is the last
/// that is recorded below the offset.
pub proof fn lemma_line_begins_after_line_feed(s: Seq<u8>, pos: int)
    requires
        0 < pos <= s.len() <= usize::MAX,
        s[pos - 1] == NEWLINE,
    ensures
        col_at(s, pos) == 0,
        line_at(s, pos) == line_at(s, pos - 1) + 1,
        newline_offsets(s, pos).last() == pos - 1,
{
}

/// Where the scan stands: the offset of the next unread byte, and the offset at
/// which the line holding it begins. The number of the current line is one more
/// than the count of line breaks that the token stream has recorded.
#[derive(Debug, Clone, Copy, PartialEq, Eq, Structural)]
pub struct Cursor {
    pub pos: usize,
    pub line_start: usize,
}

impl Cursor {
    /// The cursor before the first byte of a text.
    pub fn new() -> (cursor: Self)
        ensures
            cursor.pos == 0,
            cursor.line_start == 0,
    {
        Cursor { pos: 0, line_start: 0 }
    }
}

} // verus!
