//! Conversion between absolute character offsets and (line, column)
//! positions over the buffer's text. Offsets count scalar values from the
//! start of the document, with one implicit line break between consecutive
//! rows. At a line boundary the canonical position is the end of the line,
//! never the start of the next one, except at the true end of the document
//! where both coincide with the final position.

use vstd::prelude::*;

verus! {

use crate::buffer::{EditBufferState, buf_rows};
use crate::text::char_len;

/// A count of scalar values from the start of the document.
#[derive(Clone, Copy, Debug, PartialEq, Eq, Structural)]
pub struct AbsoluteCharOffset(pub usize);

/// A count of scalar values from the start of a line.
#[derive(Clone, Copy, Debug, PartialEq, Eq, Structural)]
pub struct CharOffset(pub usize);

/// A line index and a column within that line, counted in scalar values.
/// The column may equal the line length: one past the last character is a
/// valid position.
#[derive(Clone, Copy, Debug, PartialEq, Eq, Structural)]
pub struct Position {
    pub line: usize,
    pub offset: CharOffset,
}

/// Absolute offset of the start of a line: the lengths of all earlier
/// lines, plus one per implicit line break.
pub open spec fn line_start(rows: Seq<Seq<char>>, line: int) -> int
    decreases line,
{
    if line <= 0 {
        0
    } else {
        line_start(rows, line - 1) + rows[line - 1].len() + 1
    }
}

/// The absolute offset of a position, or `None` when the line index or the
/// column is out of range.
pub open spec fn pos_to_offset_spec(rows: Seq<Seq<char>>, line: int, off: int) -> Option<int> {
    if 0 <= line < rows.len() && 0 <= off <= rows[line].len() {
        Some(line_start(rows, line) + off)
    } else {
        None
    }
}

/// The position of an absolute offset, scanning from `line` with `o`
/// scalar values still to account for; `None` when the offset lies past
/// the end of the document.
pub open spec fn offset_to_pos_from(rows: Seq<Seq<char>>, o: int, line: int) -> Option<(int, int)>
    decreases rows.len() - line,
{
    if line < 0 || line >= rows.len() {
        None
    } else if o <= rows[line].len() {
        Some((line, o))
    } else {
        offset_to_pos_from(rows, o - (rows[line].len() + 1), line + 1)
    }
}

/// The position of an absolute offset in the document.
pub open spec fn offset_to_pos_spec(rows: Seq<Seq<char>>, o: int) -> Option<(int, int)> {
    if o < 0 {
        None
    } else {
        offset_to_pos_from(rows, o, 0)
    }
}

/// Absolute offset of a position: the lengths of the preceding lines plus
/// one per line break, plus the column. `None` when the line or the column
/// is out of range; callers treat `None` as a no-op.
pub fn pos_to_char_offset(state: &EditBufferState, pos: &Position)
    -> (r: Option<AbsoluteCharOffset>)
    requires
        (pos.line as int) < buf_rows(*state).len()
            ==> line_start(buf_rows(*state), pos.line + 1 as int) <= usize::MAX,
    ensures
        match r {
            Some(o) => pos_to_offset_spec(buf_rows(*state), pos.line as int,
                pos.offset.0 as int) == Some(o.0 as int),
            None => pos_to_offset_spec(buf_rows(*state), pos.line as int,
                pos.offset.0 as int) is None,
        },
{
    let ghost rows = buf_rows(*state);
    if pos.line >= state.rows.len() {
        return None;
    }
    let mut acc: usize = 0;
    let mut l: usize = 0;
    proof {
        lemma_line_start_mono(rows, pos.line as int, pos.line + 1 as int);
    }
    while l < pos.line
        invariant
            l <= pos.line,
            (pos.line as int) < rows.len(),
            rows == buf_rows(*state),
            acc == line_start(rows, l as int),
            line_start(rows, pos.line + 1 as int) <= usize::MAX,
        decreases pos.line - l,
    {
        proof {
            lemma_line_start_mono(rows, l + 1 as int, pos.line + 1 as int);
        }
        acc = acc + char_len(&state.rows[l].row) + 1;
        l += 1;
    }
    let row_len = char_len(&state.rows[pos.line].row);
    if pos.offset.0 <= row_len {
        proof {
            lemma_line_start_mono(rows, pos.line as int, pos.line + 1 as int);
        }
        Some(AbsoluteCharOffset(acc + pos.offset.0))
    } else {
        None
    }
}

/// Line starts never decrease as the line index grows.
pub proof fn lemma_line_start_mono(rows: Seq<Seq<char>>, a: int, b: int)
    requires
        0 <= a <= b,
    ensures
        line_start(rows, a) <= line_start(rows, b),
        a < b ==> line_start(rows, a) + rows[a].len() + 1 <= line_start(rows, b),
    decreases b - a,
{
    if a < b {
        lemma_line_start_mono(rows, a + 1, b);
    }
}

/// Position of an absolute offset: scan the lines, counting each line's
/// scalar values plus one for its break, until the offset falls within or
/// at the end of a line. `None` when the offset exceeds the document
/// length; callers treat `None` as a no-op.
pub fn char_offset_to_pos(state: &EditBufferState, offset: &AbsoluteCharOffset)
    -> (r: Option<Position>)
    ensures
        match r {
            Some(p) => offset_to_pos_spec(buf_rows(*state), offset.0 as int)
                == Some((p.line as int, p.offset.0 as int)),
            None => offset_to_pos_spec(buf_rows(*state), offset.0 as int) is None,
        },
{
    let ghost rows = buf_rows(*state);
    let mut line: usize = 0;
    let mut rem: usize = offset.0;
    while line < state.rows.len()
        invariant
            line <= rows.len(),
            rows == buf_rows(*state),
            offset_to_pos_from(rows, offset.0 as int, 0)
                == offset_to_pos_from(rows, rem as int, line as int),
        decreases rows.len() - line,
    {
        let len = char_len(&state.rows[line].row);
        if rem <= len {
            return Some(Position { line, offset: CharOffset(rem) });
        }
        rem = rem - len - 1;
        line += 1;
    }
    None
}

/// Round trip, offset first: a position obtained from a valid absolute
/// offset converts back to exactly that offset.
pub proof fn lemma_offset_pos_round_trip(rows: Seq<Seq<char>>, o: int)
    requires
        offset_to_pos_spec(rows, o) is Some,
    ensures
        pos_to_offset_spec(rows, offset_to_pos_spec(rows, o).unwrap().0,
            offset_to_pos_spec(rows, o).unwrap().1) == Some(o),
{
    lemma_offset_pos_from(rows, o, 0);
}

/// Scanning from `line` with `o` left lands on a position whose absolute
/// offset is the line start plus what was already consumed.
proof fn lemma_offset_pos_from(rows: Seq<Seq<char>>, o: int, line: int)
    requires
        0 <= line <= rows.len(),
        0 <= o,
        offset_to_pos_from(rows, o, line) is Some,
    ensures
        ({
            let p = offset_to_pos_from(rows, o, line).unwrap();
            &&& line <= p.0 < rows.len()
            &&& 0 <= p.1 <= rows[p.0].len()
            &&& line_start(rows, p.0) - line_start(rows, line) + p.1 == o
        }),
    decreases rows.len() - line,
{
    if line < rows.len() && o > rows[line].len() {
        lemma_offset_pos_from(rows, o - (rows[line].len() + 1), line + 1);
    }
}

/// Round trip, position first: every in-range position converts to an
/// offset and back to the identical position. At a line boundary the end
/// of a line and the start of the next have distinct offsets, so no
/// canonicalisation is lost.
pub proof fn lemma_pos_offset_round_trip(rows: Seq<Seq<char>>, line: int, off: int)
    requires
        0 <= line < rows.len(),
        0 <= off <= rows[line].len(),
    ensures
        offset_to_pos_spec(rows, pos_to_offset_spec(rows, line, off).unwrap())
            == Some((line, off)),
{
    lemma_pos_offset_from(rows, line, off, 0);
}

/// Scanning for the offset of (line, off) from any earlier line finds
/// exactly (line, off).
proof fn lemma_pos_offset_from(rows: Seq<Seq<char>>, line: int, off: int, from: int)
    requires
        0 <= from <= line < rows.len(),
        0 <= off <= rows[line].len(),
    ensures
        offset_to_pos_from(rows, line_start(rows, line) - line_start(rows, from) + off, from)
            == Some((line, off)),
    decreases line - from,
{
    if from < line {
        lemma_line_start_mono(rows, from, line);
        lemma_pos_offset_from(rows, line, off, from + 1);
    }
}

} // verus!
