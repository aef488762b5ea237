//! The buffer: an ordered sequence of rows with structural operations,
//! cursor and scroll bookkeeping, a dirty flag and an optional file name.
//! Contracts speak of the buffer through `buf_rows`, the sequence of line
//! contents, and of each operation through a step function on it.

use vstd::prelude::*;

verus! {

use crate::edit::{Section, SectionType, sec_cx, sec_cy};
use crate::row::{Row, row_cache_ok, row_del_char, row_insert_char, row_append_string, update_row};
use crate::text::char_len;

/// Cursor movement directions.
#[derive(Clone, Copy, Debug, PartialEq, Eq, Structural)]
pub enum Arrow {
    Left,
    Right,
    Up,
    Down,
}

/// The buffer and its bookkeeping. `cx`/`cy` are the cursor column and line
/// in scalar values; `rx` is the rendered cursor column; the offsets are the
/// scroll position.
#[derive(Clone, Debug)]
pub struct EditBufferState {
    pub cx: usize,
    pub cy: usize,
    pub rx: usize,
    pub row_offset: usize,
    pub col_offset: usize,
    pub rows: Vec<Row>,
    pub dirty: bool,
    pub filename: Option<String>,
}

/// The contents of a sequence of rows, one sequence of scalar values each.
pub open spec fn rows_seq(rows: Seq<Row>) -> Seq<Seq<char>> {
    rows.map_values(|r: Row| r.row@)
}

/// The line contents of the buffer, one sequence of scalar values per row.
pub open spec fn buf_rows(s: EditBufferState) -> Seq<Seq<char>> {
    rows_seq(s.rows@)
}

/// The file name as a sequence of scalar values, when one is set.
pub open spec fn fname_view(s: EditBufferState) -> Option<Seq<char>> {
    match s.filename {
        Some(n) => Some(n@),
        None => None,
    }
}

/// Weak isomorphism: same line contents and same file name; cursor, scroll
/// and dirty bookkeeping are ignored.
pub open spec fn weak_iso(a: EditBufferState, b: EditBufferState) -> bool {
    buf_rows(a) == buf_rows(b) && fname_view(a) == fname_view(b)
}

/// An anchor is addressable when its line exists and its column is at most
/// the line length (one past the last character is a valid position).
pub open spec fn valid_anchor(rows: Seq<Seq<char>>, cx: int, cy: int) -> bool {
    &&& 0 <= cy < rows.len()
    &&& 0 <= cx <= rows[cy].len()
}

/// Cursor-independent fields that no content operation touches.
pub open spec fn same_viewport(a: EditBufferState, b: EditBufferState) -> bool {
    &&& a.rx == b.rx
    &&& a.row_offset == b.row_offset
    &&& a.col_offset == b.col_offset
    &&& a.filename == b.filename
}

/// The second row equals the first but stands at position `i`.
pub open spec fn reindexed(r2: Row, r1: Row, i: int) -> bool {
    &&& r2.index == i
    &&& r2.row@ == r1.row@
    &&& r2.render@ == r1.render@
    &&& r2.highlight@ == r1.highlight@
    &&& r2.highlight_open_comment == r1.highlight_open_comment
}

impl Default for EditBufferState {
    /// A buffer holding one empty row, with all bookkeeping cleared; a
    /// freshly opened file always has at least one line.
    fn default() -> (s: EditBufferState)
        ensures
            s.cx == 0 && s.cy == 0 && s.rx == 0 && s.row_offset == 0 && s.col_offset == 0,
            !s.dirty,
            s.filename is None,
            s.rows@.len() == 1,
            s.rows@[0].row@ == Seq::<char>::empty(),
            s.rows@[0].index == 0,
            buf_rows(s) =~= seq![Seq::<char>::empty()],
    {
        let mut rows: Vec<Row> = Vec::new();
        rows.push(Row::default());
        EditBufferState {
            cx: 0,
            cy: 0,
            rx: 0,
            row_offset: 0,
            col_offset: 0,
            rows,
            dirty: false,
            filename: None,
        }
    }
}

impl EditBufferState {
    /// Classify an anchor against this buffer: `NormalRow` exactly when it
    /// is addressable.
    pub fn section_type(&self, section: &Section) -> (t: SectionType)
        ensures
            t == SectionType::NormalRow
                <==> valid_anchor(buf_rows(*self), sec_cx(*section), sec_cy(*section)),
    {
        match *section {
            Section::Character((cx, cy)) => {
                if cy < self.rows.len() && cx <= char_len(&self.rows[cy].row) {
                    SectionType::NormalRow
                } else {
                    SectionType::Invalid
                }
            }
        }
    }
}

/// Set the position index of a row, leaving everything else alone.
fn set_row_index(row: &mut Row, i: usize)
    ensures
        reindexed(*final(row), *old(row), i as int),
{
    row.index = i;
}

/// What `insert_row` does to the line contents when `at` is in range.
pub open spec fn insert_row_step(rows: Seq<Seq<char>>, at: int, s: Seq<char>) -> Seq<Seq<char>> {
    rows.insert(at, s)
}

/// Insert a new row holding `s` at position `at`; rows from `at` on are
/// renumbered and the buffer is marked dirty. A position past the append
/// point is deliberately a no-op, not an error.
pub fn insert_row(state: &mut EditBufferState, at: usize, s: Vec<char>)
    ensures
        at > old(state).rows@.len() ==> *final(state) == *old(state),
        at <= old(state).rows@.len() ==> {
            &&& buf_rows(*final(state)) == insert_row_step(buf_rows(*old(state)), at as int, s@)
            &&& final(state).rows@.len() == old(state).rows@.len() + 1
            &&& forall|i: int| 0 <= i < at ==> final(state).rows@[i] == old(state).rows@[i]
            &&& final(state).rows@[at as int].index == at
            &&& final(state).rows@[at as int].row@ == s@
            &&& row_cache_ok(final(state).rows@[at as int])
            &&& !final(state).rows@[at as int].highlight_open_comment
            &&& forall|i: int| at < i < final(state).rows@.len()
                ==> reindexed(final(state).rows@[i], old(state).rows@[i - 1], i)
            &&& final(state).dirty
            &&& final(state).cx == old(state).cx && final(state).cy == old(state).cy
            &&& same_viewport(*final(state), *old(state))
        },
{
    if at > state.rows.len() {
        return;
    }
    let row = Row::new(at, s);
    let ghost rowv = row;
    state.rows.insert(at, row);
    let n = state.rows.len();
    proof {
        assert(at < n);
        old(state).rows@.insert_ensures(at as int, rowv);
    }
    let ghost mid = state.rows@;
    let mut i: usize = at + 1;
    while i < state.rows.len()
        invariant
            at + 1 <= i <= state.rows@.len(),
            state.rows@.len() == mid.len(),
            forall|k: int| 0 <= k < at + 1 ==> state.rows@[k] == mid[k],
            forall|k: int| at + 1 <= k < i ==> reindexed(state.rows@[k], mid[k], k),
            forall|k: int| i <= k < state.rows@.len() ==> state.rows@[k] == mid[k],
            state.cx == old(state).cx,
            state.cy == old(state).cy,
            state.dirty == old(state).dirty,
            same_viewport(*state, *old(state)),
        decreases state.rows@.len() - i,
    {
        set_row_index(&mut state.rows[i], i);
        i += 1;
    }
    state.dirty = true;
    proof {
        let r0 = buf_rows(*old(state));
        let r1 = buf_rows(*state);
        assert forall|k: int| 0 <= k < r1.len() implies r1[k] == insert_row_step(r0, at as int, s@)[k]
        by {
            assert(r1[k] == state.rows@[k].row@);
            if k < at {
                assert(state.rows@[k] == mid[k]);
            } else if k == at {
            } else {
                assert(reindexed(state.rows@[k], mid[k], k));
            }
        }
        assert(r1 =~= insert_row_step(r0, at as int, s@));
        assert forall|i: int| 0 <= i < at implies state.rows@[i] == old(state).rows@[i] by {
            assert(mid[i] == old(state).rows@.insert(at as int, rowv)[i]);
        }
        assert forall|i: int| at < i < state.rows@.len()
            implies reindexed(state.rows@[i], old(state).rows@[i - 1], i) by {
            assert(reindexed(state.rows@[i], mid[i], i));
            assert(mid[i] == old(state).rows@.insert(at as int, rowv)[i]);
        }
    }
}

/// What `del_row` does to the line contents when `at` is in range.
pub open spec fn del_row_step(rows: Seq<Seq<char>>, at: int) -> Seq<Seq<char>> {
    rows.remove(at)
}

/// Remove the row at position `cy`; following rows are renumbered and the
/// buffer is marked dirty. An out-of-range position is a no-op.
pub fn del_row(state: &mut EditBufferState, cy: usize)
    ensures
        cy >= old(state).rows@.len() ==> *final(state) == *old(state),
        cy < old(state).rows@.len() ==> {
            &&& buf_rows(*final(state)) == del_row_step(buf_rows(*old(state)), cy as int)
            &&& final(state).rows@.len() == old(state).rows@.len() - 1
            &&& forall|i: int| 0 <= i < cy ==> final(state).rows@[i] == old(state).rows@[i]
            &&& forall|i: int| cy <= i < final(state).rows@.len()
                ==> reindexed(final(state).rows@[i], old(state).rows@[i + 1], i)
            &&& final(state).dirty
            &&& final(state).cx == old(state).cx && final(state).cy == old(state).cy
            &&& same_viewport(*final(state), *old(state))
        },
{
    if cy >= state.rows.len() {
        return;
    }
    state.rows.remove(cy);
    proof {
        old(state).rows@.remove_ensures(cy as int);
    }
    let ghost mid = state.rows@;
    let mut i: usize = cy;
    while i < state.rows.len()
        invariant
            cy <= i <= state.rows@.len(),
            state.rows@.len() == mid.len(),
            forall|k: int| 0 <= k < cy ==> state.rows@[k] == mid[k],
            forall|k: int| cy <= k < i ==> reindexed(state.rows@[k], mid[k], k),
            forall|k: int| i <= k < state.rows@.len() ==> state.rows@[k] == mid[k],
            state.cx == old(state).cx,
            state.cy == old(state).cy,
            state.dirty == old(state).dirty,
            same_viewport(*state, *old(state)),
        decreases state.rows@.len() - i,
    {
        set_row_index(&mut state.rows[i], i);
        i += 1;
    }
    state.dirty = true;
    proof {
        let r0 = buf_rows(*old(state));
        let r1 = buf_rows(*state);
        assert forall|k: int| 0 <= k < r1.len() implies r1[k] == del_row_step(r0, cy as int)[k]
        by {
            assert(r1[k] == state.rows@[k].row@);
            if k < cy {
                assert(state.rows@[k] == mid[k]);
            } else {
                assert(reindexed(state.rows@[k], mid[k], k));
            }
        }
        assert(r1 =~= del_row_step(r0, cy as int));
        assert forall|i: int| 0 <= i < cy implies state.rows@[i] == old(state).rows@[i] by {
            assert(mid[i] == old(state).rows@.remove(cy as int)[i]);
        }
        assert forall|i: int| cy <= i < state.rows@.len()
            implies reindexed(state.rows@[i], old(state).rows@[i + 1], i) by {
            assert(reindexed(state.rows@[i], mid[i], i));
            assert(mid[i] == old(state).rows@.remove(cy as int)[i]);
        }
    }
}

/// What inserting one non-break character at a fixed anchor does to the
/// line contents: a cursor at the append line first gains an empty row, and
/// the character lands at the column when it is addressable.
pub open spec fn ins_char_step(rows: Seq<Seq<char>>, cx: int, cy: int, c: char) -> Seq<Seq<char>> {
    let rows1 = if cy == rows.len() { rows.push(Seq::empty()) } else { rows };
    if 0 <= cy < rows1.len() && 0 <= cx <= rows1[cy].len() {
        rows1.update(cy, rows1[cy].insert(cx, c))
    } else {
        rows1
    }
}

/// Place the cursor at `coord` and insert the character there.
pub fn insert_char(state: &mut EditBufferState, coord: (usize, usize), c: char)
    requires
        coord.1 <= old(state).rows@.len(),
        inserts_char(buf_rows(*old(state)), coord.0 as int, coord.1 as int)
            || coord.0 < usize::MAX,
    ensures
        buf_rows(*final(state))
            == ins_char_step(buf_rows(*old(state)), coord.0 as int, coord.1 as int, c),
        final(state).cx == coord.0 + 1,
        final(state).cy == coord.1,
        same_viewport(*final(state), *old(state)),
        final(state).dirty || !inserts_char(buf_rows(*old(state)), coord.0 as int, coord.1 as int)
            && final(state).dirty == old(state).dirty,
        valid_anchor(buf_rows(*old(state)), coord.0 as int, coord.1 as int)
            ==> final(state).dirty,
{
    let (cx, cy) = coord;
    state.cx = cx;
    state.cy = cy;
    insert_char_at_cursor(state, c)
}

/// The anchor addresses a cell where a character can land (a cursor on the
/// append line first gains an empty row, so only column 0 is addressable
/// there).
pub open spec fn inserts_char(rows: Seq<Seq<char>>, cx: int, cy: int) -> bool {
    if cy == rows.len() {
        cx == 0
    } else {
        0 <= cy < rows.len() && 0 <= cx <= rows[cy].len()
    }
}

/// Insert the character at the cursor. A cursor on the line one past the
/// last gets a fresh empty row first; the cursor then moves one column
/// right, whether or not the column was addressable.
pub fn insert_char_at_cursor(state: &mut EditBufferState, c: char)
    requires
        old(state).cy <= old(state).rows@.len(),
        inserts_char(buf_rows(*old(state)), old(state).cx as int, old(state).cy as int)
            || old(state).cx < usize::MAX,
    ensures
        buf_rows(*final(state))
            == ins_char_step(buf_rows(*old(state)), old(state).cx as int, old(state).cy as int, c),
        final(state).cx == old(state).cx + 1,
        final(state).cy == old(state).cy,
        same_viewport(*final(state), *old(state)),
        final(state).dirty
            || !inserts_char(buf_rows(*old(state)), old(state).cx as int, old(state).cy as int)
            && final(state).dirty == old(state).dirty,
        valid_anchor(buf_rows(*old(state)), old(state).cx as int, old(state).cy as int)
            ==> final(state).dirty,
{
    if state.cy == state.rows.len() {
        let at = state.rows.len();
        insert_row(state, at, Vec::new());
    }
    let cy = state.cy;
    let cx = state.cx;
    let inserted = cx <= state.rows[cy].row.len();
    row_insert_char(&mut state.rows[cy], cx, c);
    if inserted {
        state.dirty = true;
        let grown = state.rows[cy].row.len();
        proof {
            assert(cx < grown);
        }
    }
    state.cx += 1;
    proof {
        let rows0 = buf_rows(*old(state));
        let rows1 = if old(state).cy == rows0.len() { rows0.push(Seq::empty()) } else { rows0 };
        if 0 <= old(state).cy < rows1.len() && 0 <= old(state).cx <= rows1[old(state).cy as int].len() {
            assert(buf_rows(*state)
                =~= rows1.update(old(state).cy as int,
                    rows1[old(state).cy as int].insert(old(state).cx as int, c)));
        } else {
            assert(buf_rows(*state) =~= rows1);
        }
    }
}

/// What inserting a line break at an anchor does to the line contents: the
/// anchored row splits at the column (an unaddressable column instead gains
/// an empty row below).
pub open spec fn nl_step(rows: Seq<Seq<char>>, cx: int, cy: int) -> Seq<Seq<char>> {
    if cx == 0 {
        if 0 <= cy <= rows.len() { rows.insert(cy, Seq::empty()) } else { rows }
    } else if 0 <= cy < rows.len() {
        if cx <= rows[cy].len() {
            rows.update(cy, rows[cy].take(cx)).insert(cy + 1, rows[cy].skip(cx))
        } else {
            rows.insert(cy + 1, Seq::empty())
        }
    } else {
        rows
    }
}

/// Place the cursor at `coord` and split the line there; the cursor moves
/// to the start of the following line.
pub fn insert_newline(state: &mut EditBufferState, coord: (usize, usize))
    requires
        coord.0 == 0 || coord.1 < old(state).rows@.len(),
        coord.1 < usize::MAX,
    ensures
        buf_rows(*final(state)) == nl_step(buf_rows(*old(state)), coord.0 as int, coord.1 as int),
        final(state).cx == 0,
        final(state).cy == coord.1 + 1,
        same_viewport(*final(state), *old(state)),
        final(state).dirty || coord.0 == 0 && coord.1 > old(state).rows@.len()
            && final(state).dirty == old(state).dirty,
        valid_anchor(buf_rows(*old(state)), coord.0 as int, coord.1 as int)
            ==> final(state).dirty,
{
    let (cx, cy) = coord;
    state.cx = cx;
    state.cy = cy;
    if cx == 0 {
        insert_row(state, cy, Vec::new());
        proof {
            if cy <= old(state).rows@.len() {
                assert(buf_rows(*state)
                    =~= nl_step(buf_rows(*old(state)), cx as int, cy as int));
            }
        }
    } else {
        let new_row: Vec<char> = match crate::text::cx_to_byte_x(&state.rows[cy].row, cx) {
            Some(byte_x) => {
                let r = state.rows[cy].row.split_off(byte_x);
                r
            }
            None => Vec::new(),
        };
        insert_row(state, cy + 1, new_row);
        update_row(&mut state.rows[cy]);
        proof {
            let rows0 = buf_rows(*old(state));
            if cx <= rows0[cy as int].len() {
                assert(buf_rows(*state)
                    =~= rows0.update(cy as int, rows0[cy as int].take(cx as int))
                        .insert(cy + 1, rows0[cy as int].skip(cx as int)));
            } else {
                assert(buf_rows(*state) =~= rows0.insert(cy + 1, Seq::<char>::empty()));
            }
        }
    }
    state.cy += 1;
    state.cx = 0;
}

/// What deleting one position does to the line contents: remove the
/// character at the column, or join the next row onto this one when the
/// cursor sits at the end of the line.
pub open spec fn del_step(rows: Seq<Seq<char>>, cx: int, cy: int) -> Seq<Seq<char>> {
    if cy == rows.len() {
        rows
    } else if 0 <= cx < rows[cy].len() {
        rows.update(cy, rows[cy].remove(cx))
    } else {
        rows.update(cy, rows[cy] + rows[cy + 1]).remove(cy + 1)
    }
}

/// Place the cursor at `coord` and delete the position there: the character
/// under the cursor, or, at the end of a line, the break joining it to the
/// next row. A cursor on the append line is a no-op.
pub fn del_char(state: &mut EditBufferState, coord: (usize, usize))
    requires
        coord.1 <= old(state).rows@.len(),
        coord.1 == old(state).rows@.len()
            || coord.0 < old(state).rows@[coord.1 as int].row@.len()
            || coord.1 + 1 < old(state).rows@.len(),
    ensures
        buf_rows(*final(state)) == del_step(buf_rows(*old(state)), coord.0 as int, coord.1 as int),
        final(state).cy == coord.1,
        coord.1 == old(state).rows@.len() ==> {
            &&& final(state).rows == old(state).rows
            &&& final(state).dirty == old(state).dirty
            &&& same_viewport(*final(state), *old(state))
        },
        coord.1 < old(state).rows@.len() ==> {
            &&& final(state).dirty
            &&& final(state).cx == if coord.0 < old(state).rows@[coord.1 as int].row@.len() {
                coord.0 as int
            } else {
                old(state).rows@[coord.1 as int].row@.len() as int
            }
            &&& same_viewport(*final(state), *old(state))
        },
        coord.1 == old(state).rows@.len() ==> final(state).cx == coord.0,
{
    let (cx, cy) = coord;
    state.cx = cx;
    state.cy = cy;
    if state.cy == state.rows.len() {
        return;
    }
    let row_len = char_len(&state.rows[cy].row);
    if cx < row_len {
        row_del_char(&mut state.rows[cy], cx);
        state.dirty = true;
        proof {
            assert(buf_rows(*state)
                =~= buf_rows(*old(state)).update(cy as int,
                    buf_rows(*old(state))[cy as int].remove(cx as int)));
        }
    } else {
        let next = crate::edit::clone_chars(&state.rows[cy + 1].row);
        state.cx = row_len;
        row_append_string(&mut state.rows[cy], &next);
        del_row(state, cy + 1);
        proof {
            let rows0 = buf_rows(*old(state));
            assert(buf_rows(*state)
                =~= rows0.update(cy as int, rows0[cy as int] + rows0[cy + 1]).remove(cy + 1));
        }
    }
}

/// Where the cursor lands when moved one step in a direction, clamped to
/// the end of the landing line.
pub open spec fn move_cursor_spec(rows: Seq<Seq<char>>, cx: int, cy: int, arrow: Arrow)
    -> (int, int) {
    let stepped = match arrow {
        Arrow::Left => if cx != 0 {
            (cx - 1, cy)
        } else if cy > 0 {
            (rows[cy - 1].len() as int, cy - 1)
        } else {
            (cx, cy)
        },
        Arrow::Right => if 0 <= cy < rows.len() {
            if cx < rows[cy].len() {
                (cx + 1, cy)
            } else if cx == rows[cy].len() {
                (0, cy + 1)
            } else {
                (cx, cy)
            }
        } else {
            (cx, cy)
        },
        Arrow::Up => (cx, if cy > 0 { cy - 1 } else { 0 }),
        Arrow::Down => if cy < rows.len() { (cx, cy + 1) } else { (cx, cy) },
    };
    let rl: int = if 0 <= stepped.1 < rows.len() { rows[stepped.1].len() as int } else { 0 };
    (if stepped.0 > rl { rl } else { stepped.0 }, stepped.1)
}

/// Move the cursor one step in a direction, sliding from a line start to
/// the end of the previous line and from a line end to the next line start,
/// and clamping the column to the landing line.
pub fn move_cursor(state: &mut EditBufferState, arrow: Arrow)
    requires
        old(state).cy <= old(state).rows@.len(),
    ensures
        final(state).cx == move_cursor_spec(buf_rows(*old(state)), old(state).cx as int,
            old(state).cy as int, arrow).0,
        final(state).cy == move_cursor_spec(buf_rows(*old(state)), old(state).cx as int,
            old(state).cy as int, arrow).1,
        final(state).rows == old(state).rows,
        final(state).dirty == old(state).dirty,
        same_viewport(*final(state), *old(state)),
{
    let row_len: Option<usize> = if state.cy < state.rows.len() {
        Some(char_len(&state.rows[state.cy].row))
    } else {
        None
    };

    match arrow {
        Arrow::Left => {
            if state.cx != 0 {
                state.cx -= 1;
            } else if state.cy > 0 {
                state.cy -= 1;
                state.cx = char_len(&state.rows[state.cy].row);
            }
        }
        Arrow::Right => {
            match row_len {
                Some(len) if state.cx < len => {
                    state.cx += 1;
                }
                Some(len) if state.cx == len => {
                    state.cy += 1;
                    state.cx = 0;
                }
                _ => {}
            }
        }
        Arrow::Up => {
            if state.cy > 0 {
                state.cy -= 1;
            }
        }
        Arrow::Down => {
            if state.cy < state.rows.len() {
                state.cy += 1;
            }
        }
    }

    let new_row_len = if state.cy < state.rows.len() {
        char_len(&state.rows[state.cy].row)
    } else {
        0
    };
    if state.cx > new_row_len {
        state.cx = new_row_len;
    }
}

} // verus!
