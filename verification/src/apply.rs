//! The edit applier: validate-then-apply. An insert replays its payload
//! character by character at a fixed anchor, exactly as if typed; a remove
//! first verifies that the payload matches the live content at the anchor
//! and only then deletes exactly that many scalar values. Undo is the same
//! machinery run on the structurally inverse edit, not a separate code path.

use vstd::prelude::*;

verus! {

use crate::buffer::{
    EditBufferState, buf_rows, del_step, del_char, ins_char_step, insert_char, insert_newline,
    nl_step, rows_seq, same_viewport, valid_anchor,
};
use crate::edit::{Edit, EditM, EditOutcome, Section, SectionType, edit_inverse, sec_cx, sec_cy};
use crate::row::Row;
use crate::text::{is_newline, is_nl, tail_from};

/// What inserting one character at a fixed anchor does to the line
/// contents: a line break splits the anchored row, anything else lands at
/// the anchor column.
pub open spec fn ins_step(rows: Seq<Seq<char>>, cx: int, cy: int, c: char) -> Seq<Seq<char>> {
    if is_nl(c) {
        nl_step(rows, cx, cy)
    } else {
        ins_char_step(rows, cx, cy, c)
    }
}

/// The line contents after inserting the whole payload at a fixed anchor,
/// last character first, so that the payload reads left to right at the
/// anchor afterwards.
pub open spec fn replay_ins(rows: Seq<Seq<char>>, cx: int, cy: int, s: Seq<char>)
    -> Seq<Seq<char>>
    decreases s.len(),
{
    if s.len() == 0 {
        rows
    } else {
        ins_step(replay_ins(rows, cx, cy, s.drop_first()), cx, cy, s.first())
    }
}

/// The payload reads at the anchor: each non-break character equals the
/// scalar value at the advancing position, and each break character in the
/// payload requires the position to sit at the end of its line with a
/// following line to continue on.
pub open spec fn match_spec(rows: Seq<Seq<char>>, cx: int, cy: int, s: Seq<char>) -> bool
    decreases s.len(),
{
    if s.len() == 0 {
        true
    } else if is_nl(s.first()) {
        &&& 0 <= cy < rows.len()
        &&& cx == rows[cy].len()
        &&& cy + 1 < rows.len()
        &&& match_spec(rows, 0, cy + 1, s.drop_first())
    } else {
        &&& 0 <= cy < rows.len()
        &&& 0 <= cx < rows[cy].len()
        &&& rows[cy][cx] == s.first()
        &&& match_spec(rows, cx + 1, cy, s.drop_first())
    }
}

/// The line contents after deleting `n` positions at a fixed anchor.
pub open spec fn del_replay(rows: Seq<Seq<char>>, cx: int, cy: int, n: nat) -> Seq<Seq<char>>
    decreases n,
{
    if n == 0 {
        rows
    } else {
        del_replay(del_step(rows, cx, cy), cx, cy, (n - 1) as nat)
    }
}

/// A remove at this anchor verifies and deletes: the payload is non-empty
/// and reads at the anchor.
pub open spec fn removes(rows: Seq<Seq<char>>, cx: int, cy: int, s: Seq<char>) -> bool {
    s.len() > 0 && match_spec(rows, cx, cy, s)
}

/// What applying an edit does to the line contents, and whether it changes
/// them. An empty payload or an unaddressable anchor changes nothing; a
/// remove whose payload does not read at the anchor changes nothing.
pub open spec fn apply_model(rows: Seq<Seq<char>>, e: EditM) -> (Seq<Seq<char>>, bool) {
    match e {
        EditM::Insert((cx, cy), s) => if valid_anchor(rows, cx, cy) && s.len() > 0 {
            (replay_ins(rows, cx, cy, s), true)
        } else {
            (rows, false)
        },
        EditM::Remove((cx, cy), s) => if valid_anchor(rows, cx, cy) && removes(rows, cx, cy, s) {
            (del_replay(rows, cx, cy, s.len()), true)
        } else {
            (rows, false)
        },
    }
}

/// One insertion step keeps the anchor addressable.
pub proof fn lemma_ins_step_valid(rows: Seq<Seq<char>>, cx: int, cy: int, c: char)
    requires
        valid_anchor(rows, cx, cy),
    ensures
        valid_anchor(ins_step(rows, cx, cy, c), cx, cy),
{
    if is_nl(c) {
        if cx == 0 {
            assert(ins_step(rows, cx, cy, c)[cy] =~= Seq::<char>::empty());
        } else {
            assert(ins_step(rows, cx, cy, c)[cy] == rows[cy].take(cx));
        }
    }
}

/// The whole replay keeps the anchor addressable.
pub proof fn lemma_replay_ins_valid(rows: Seq<Seq<char>>, cx: int, cy: int, s: Seq<char>)
    requires
        valid_anchor(rows, cx, cy),
    ensures
        valid_anchor(replay_ins(rows, cx, cy, s), cx, cy),
    decreases s.len(),
{
    if s.len() > 0 {
        lemma_replay_ins_valid(rows, cx, cy, s.drop_first());
        lemma_ins_step_valid(replay_ins(rows, cx, cy, s.drop_first()), cx, cy, s.first());
    }
}

/// Replay the payload as character inserts and row splits at the advancing
/// anchor; an empty payload changes nothing. Callers have checked that the
/// anchor is addressable.
pub fn perform_insert(state: &mut EditBufferState, section: &Section, s: &Vec<char>)
    -> (r: EditOutcome)
    requires
        valid_anchor(buf_rows(*old(state)), sec_cx(*section), sec_cy(*section)),
    ensures
        s@.len() == 0 ==> r == EditOutcome::Unchanged && *final(state) == *old(state),
        s@.len() > 0 ==> {
            &&& r == EditOutcome::Changed
            &&& buf_rows(*final(state))
                == replay_ins(buf_rows(*old(state)), sec_cx(*section), sec_cy(*section), s@)
            &&& final(state).dirty
            &&& same_viewport(*final(state), *old(state))
            &&& final(state).cy == if is_nl(s@.first()) { sec_cy(*section) + 1 } else {
                sec_cy(*section)
            }
            &&& final(state).cx == if is_nl(s@.first()) { 0int } else { sec_cx(*section) + 1 }
        },
{
    let (cx, cy) = match *section {
        Section::Character(coord) => coord,
    };
    if s.len() == 0 {
        return EditOutcome::Unchanged;
    }
    let ghost rows0 = buf_rows(*old(state));
    let mut j: usize = s.len();
    while j > 0
        invariant
            j <= s@.len(),
            s@.len() > 0,
            cx == sec_cx(*section),
            cy == sec_cy(*section),
            valid_anchor(rows0, cx as int, cy as int),
            rows0 == buf_rows(*old(state)),
            buf_rows(*state) == replay_ins(rows0, cx as int, cy as int,
                s@.subrange(j as int, s@.len() as int)),
            same_viewport(*state, *old(state)),
            j == s@.len() ==> state.cx == old(state).cx && state.cy == old(state).cy
                && state.dirty == old(state).dirty,
            j < s@.len() ==> state.dirty
                && state.cy == (if is_nl(s@[j as int]) { cy + 1 as int } else { cy as int })
                && state.cx == (if is_nl(s@[j as int]) { 0int } else { cx + 1 as int }),
        decreases j,
    {
        j -= 1;
        let c = s[j];
        proof {
            lemma_replay_ins_valid(rows0, cx as int, cy as int,
                s@.subrange(j as int, s@.len() as int));
            assert(s@.subrange(j as int, s@.len() as int).first() == s@[j as int]);
            assert(s@.subrange(j as int, s@.len() as int).drop_first()
                =~= s@.subrange(j + 1 as int, s@.len() as int));
        }
        let row_count = state.rows.len();
        proof {
            // materialize that the line index fits below the address limit
            assert(cy < row_count);
        }
        if is_newline(c) {
            insert_newline(state, (cx, cy));
        } else {
            insert_char(state, (cx, cy), c);
        }
    }
    proof {
        assert(s@.subrange(0, s@.len() as int) =~= s@);
    }
    EditOutcome::Changed
}

/// Walk the payload from index `from` against the live rows, advancing a
/// position from the anchor; true exactly when the remaining payload reads
/// there.
pub fn matches_at(rows: &Vec<Row>, cx: usize, cy: usize, s: &Vec<char>, from: usize)
    -> (r: bool)
    requires
        from <= s@.len(),
    ensures
        r <==> match_spec(rows_seq(rows@), cx as int, cy as int, s@.skip(from as int)),
{
    let ghost rseq = rows_seq(rows@);
    let mut j: usize = from;
    let mut ccx: usize = cx;
    let mut ccy: usize = cy;
    while j < s.len()
        invariant
            from <= j <= s@.len(),
            rseq == rows_seq(rows@),
            match_spec(rseq, cx as int, cy as int, s@.skip(from as int))
                == match_spec(rseq, ccx as int, ccy as int, s@.skip(j as int)),
        decreases s@.len() - j,
    {
        proof {
            assert(s@.skip(j as int).first() == s@[j as int]);
            assert(s@.skip(j as int).drop_first() =~= s@.skip(j + 1 as int));
        }
        let c = s[j];
        if is_newline(c) {
            if ccy < rows.len() && ccx == rows[ccy].row.len() && ccy + 1 < rows.len() {
                ccy += 1;
                ccx = 0;
            } else {
                return false;
            }
        } else {
            if ccy < rows.len() && ccx < rows[ccy].row.len() && rows[ccy].row[ccx] == c {
                ccx += 1;
            } else {
                return false;
            }
        }
        j += 1;
    }
    proof {
        assert(s@.skip(s@.len() as int) =~= Seq::<char>::empty());
    }
    true
}

/// A position at the anchor or behind it in reading order.
pub open spec fn pos_after(dx: int, dy: int, cx: int, cy: int) -> bool {
    dy > cy || (dy == cy && dx >= cx)
}

/// Where a position at or behind the anchor lands after one insertion step
/// at the anchor.
pub open spec fn shift_pos(c: char, cx: int, cy: int, dx: int, dy: int) -> (int, int) {
    if is_nl(c) {
        if dy == cy {
            (dx - cx, cy + 1)
        } else {
            (dx, dy + 1)
        }
    } else {
        if dy == cy {
            (dx + 1, dy)
        } else {
            (dx, dy)
        }
    }
}

/// For a valid anchor, a break insertion always takes the split form: the
/// anchored row becomes its prefix, the suffix becomes the next row.
pub proof fn lemma_nl_step_split(rows: Seq<Seq<char>>, cx: int, cy: int)
    requires
        valid_anchor(rows, cx, cy),
    ensures
        nl_step(rows, cx, cy)
            == rows.update(cy, rows[cy].take(cx)).insert(cy + 1, rows[cy].skip(cx)),
{
    if cx == 0 {
        assert(rows[cy].take(0) =~= Seq::<char>::empty());
        rows.insert_ensures(cy, Seq::<char>::empty());
        rows.update(cy, rows[cy].take(0)).insert_ensures(cy + 1, rows[cy].skip(0));
        assert(rows[cy].skip(0) =~= rows[cy]);
        assert(rows.insert(cy, Seq::<char>::empty())
            =~= rows.update(cy, rows[cy].take(0)).insert(cy + 1, rows[cy].skip(0)));
    }
}

/// Text behind the anchor reads the same before and after one insertion
/// step at the anchor, at the shifted position.
pub proof fn lemma_transport_ins(
    rows: Seq<Seq<char>>,
    cx: int,
    cy: int,
    c: char,
    dx: int,
    dy: int,
    t: Seq<char>,
)
    requires
        valid_anchor(rows, cx, cy),
        pos_after(dx, dy, cx, cy),
    ensures
        match_spec(rows, dx, dy, t) == match_spec(ins_step(rows, cx, cy, c),
            shift_pos(c, cx, cy, dx, dy).0, shift_pos(c, cx, cy, dx, dy).1, t),
    decreases t.len(),
{
    let rows2 = ins_step(rows, cx, cy, c);
    let r = rows[cy];
    if is_nl(c) {
        lemma_nl_step_split(rows, cx, cy);
        rows.update(cy, r.take(cx)).insert_ensures(cy + 1, r.skip(cx));
        assert(rows2.len() == rows.len() + 1);
        assert(forall|i: int| 0 <= i < cy ==> rows2[i] == rows[i]);
        assert(rows2[cy] == r.take(cx));
        assert(rows2[cy + 1] == r.skip(cx));
        assert(forall|i: int| cy < i < rows.len() ==> rows2[i + 1] == rows[i]);
    } else {
        r.insert_ensures(cx, c);
        assert(rows2 == rows.update(cy, r.insert(cx, c)));
        assert(rows2.len() == rows.len());
        assert(forall|i: int| 0 <= i < rows.len() && i != cy ==> rows2[i] == rows[i]);
        assert(rows2[cy] == r.insert(cx, c));
        assert(rows2[cy].len() == r.len() + 1);
    }
    if t.len() > 0 {
        let a = t.first();
        let t2 = t.drop_first();
        if !is_nl(a) {
            // the old side reads a character at (dx, dy), the new side at the
            // shifted position; afterwards both advance one column
            lemma_transport_ins(rows, cx, cy, c, dx + 1, dy, t2);
        } else {
            // both sides cross to the start of the following line
            lemma_transport_ins(rows, cx, cy, c, 0, dy + 1, t2);
        }
    }
}

/// Deleting at the anchor right after inserting there restores the rows.
pub proof fn lemma_del_ins_id(rows: Seq<Seq<char>>, cx: int, cy: int, c: char)
    requires
        valid_anchor(rows, cx, cy),
    ensures
        del_step(ins_step(rows, cx, cy, c), cx, cy) == rows,
{
    let rows2 = ins_step(rows, cx, cy, c);
    let r = rows[cy];
    if is_nl(c) {
        lemma_nl_step_split(rows, cx, cy);
        rows.update(cy, r.take(cx)).insert_ensures(cy + 1, r.skip(cx));
        assert(rows2[cy].len() == cx);
        assert(!(cx < rows2[cy].len()));
        assert(rows2[cy] + rows2[cy + 1] =~= r);
        assert(del_step(rows2, cx, cy) =~= rows);
    } else {
        r.insert_ensures(cx, c);
        assert(rows2[cy] == r.insert(cx, c));
        assert(cx < rows2[cy].len());
        assert(rows2[cy].remove(cx) =~= r);
        assert(del_step(rows2, cx, cy) =~= rows);
    }
}

/// The first character of a payload that reads at the anchor.
pub open spec fn head_matches(rows: Seq<Seq<char>>, cx: int, cy: int, c: char) -> bool {
    if is_nl(c) {
        &&& 0 <= cy < rows.len()
        &&& cx == rows[cy].len()
        &&& cy + 1 < rows.len()
    } else {
        &&& 0 <= cy < rows.len()
        &&& 0 <= cx < rows[cy].len()
        &&& rows[cy][cx] == c
    }
}

/// Re-inserting the character just deleted at the anchor restores the rows.
pub proof fn lemma_ins_del_id(rows: Seq<Seq<char>>, cx: int, cy: int, c: char)
    requires
        head_matches(rows, cx, cy, c),
    ensures
        valid_anchor(del_step(rows, cx, cy), cx, cy),
        ins_step(del_step(rows, cx, cy), cx, cy, c) == rows,
{
    let r = rows[cy];
    if is_nl(c) {
        let d = rows.update(cy, r + rows[cy + 1]).remove(cy + 1);
        rows.update(cy, r + rows[cy + 1]).remove_ensures(cy + 1);
        assert(!(cx < r.len()));
        assert(del_step(rows, cx, cy) == d);
        assert(d[cy] == r + rows[cy + 1]);
        assert(cx <= d[cy].len());
        lemma_nl_step_split(d, cx, cy);
        d.update(cy, d[cy].take(cx)).insert_ensures(cy + 1, d[cy].skip(cx));
        assert(d[cy].take(cx) =~= r);
        assert(d[cy].skip(cx) =~= rows[cy + 1]);
        assert(ins_step(d, cx, cy, c) =~= rows);
    } else {
        let d = rows.update(cy, r.remove(cx));
        r.remove_ensures(cx);
        assert(del_step(rows, cx, cy) == d);
        assert(cx <= d[cy].len());
        d[cy].insert_ensures(cx, c);
        assert(d[cy].insert(cx, c) =~= r);
        assert(ins_step(d, cx, cy, c) =~= rows);
    }
}

/// After one deletion step, the rest of a matching payload still reads at
/// the anchor.
pub proof fn lemma_match_step_del(rows: Seq<Seq<char>>, cx: int, cy: int, s: Seq<char>)
    requires
        s.len() > 0,
        match_spec(rows, cx, cy, s),
    ensures
        head_matches(rows, cx, cy, s.first()),
        valid_anchor(del_step(rows, cx, cy), cx, cy),
        match_spec(del_step(rows, cx, cy), cx, cy, s.drop_first()),
{
    let c = s.first();
    let d = del_step(rows, cx, cy);
    lemma_ins_del_id(rows, cx, cy, c);
    if is_nl(c) {
        lemma_transport_ins(d, cx, cy, c, cx, cy, s.drop_first());
        assert(shift_pos(c, cx, cy, cx, cy) == (0int, cy + 1));
    } else {
        lemma_transport_ins(d, cx, cy, c, cx, cy, s.drop_first());
        assert(shift_pos(c, cx, cy, cx, cy) == (cx + 1, cy));
    }
}

/// A payload just inserted at a valid anchor reads back at that anchor.
pub proof fn lemma_match_after_ins(rows: Seq<Seq<char>>, cx: int, cy: int, s: Seq<char>)
    requires
        valid_anchor(rows, cx, cy),
    ensures
        match_spec(replay_ins(rows, cx, cy, s), cx, cy, s),
    decreases s.len(),
{
    if s.len() > 0 {
        let c = s.first();
        let s2 = s.drop_first();
        let base = replay_ins(rows, cx, cy, s2);
        lemma_replay_ins_valid(rows, cx, cy, s2);
        lemma_match_after_ins(rows, cx, cy, s2);
        lemma_transport_ins(base, cx, cy, c, cx, cy, s2);
        let rows2 = ins_step(base, cx, cy, c);
        if is_nl(c) {
            lemma_nl_step_split(base, cx, cy);
            base.update(cy, base[cy].take(cx)).insert_ensures(cy + 1, base[cy].skip(cx));
            assert(rows2[cy].len() == cx);
        } else {
            base[cy].insert_ensures(cx, c);
            assert(rows2[cy][cx] == c);
        }
    }
}

/// Deleting as many positions as a payload just inserted at a valid anchor
/// restores the rows.
pub proof fn lemma_del_after_ins(rows: Seq<Seq<char>>, cx: int, cy: int, s: Seq<char>)
    requires
        valid_anchor(rows, cx, cy),
    ensures
        del_replay(replay_ins(rows, cx, cy, s), cx, cy, s.len()) == rows,
    decreases s.len(),
{
    if s.len() > 0 {
        let c = s.first();
        let s2 = s.drop_first();
        let base = replay_ins(rows, cx, cy, s2);
        lemma_replay_ins_valid(rows, cx, cy, s2);
        lemma_del_ins_id(base, cx, cy, c);
        lemma_del_after_ins(rows, cx, cy, s2);
    }
}

/// Re-inserting a payload just verified and deleted at its anchor restores
/// the rows.
pub proof fn lemma_ins_after_del(rows: Seq<Seq<char>>, cx: int, cy: int, s: Seq<char>)
    requires
        match_spec(rows, cx, cy, s),
    ensures
        replay_ins(del_replay(rows, cx, cy, s.len()), cx, cy, s) == rows,
    decreases s.len(),
{
    if s.len() > 0 {
        let c = s.first();
        let s2 = s.drop_first();
        lemma_match_step_del(rows, cx, cy, s);
        let d = del_step(rows, cx, cy);
        lemma_ins_after_del(d, cx, cy, s2);
        assert(del_replay(rows, cx, cy, s.len()) == del_replay(d, cx, cy, s2.len()));
        lemma_ins_del_id(rows, cx, cy, c);
    }
}

/// A non-empty matching payload starts at an addressable anchor.
pub proof fn lemma_match_valid(rows: Seq<Seq<char>>, cx: int, cy: int, s: Seq<char>)
    requires
        s.len() > 0,
        match_spec(rows, cx, cy, s),
    ensures
        valid_anchor(rows, cx, cy),
{
}

/// Whether the payload reads across the rows from the start of row `cy`:
/// every segment before a break must fill its row exactly, the final
/// segment must be a prefix of its landing row.
pub fn rows_match(rows: &Vec<Row>, cy: usize, s: &Vec<char>) -> (r: bool)
    ensures
        r <==> (cy < rows@.len() && match_spec(rows_seq(rows@), 0, cy as int, s@)),
{
    if cy >= rows.len() {
        return false;
    }
    let r = matches_at(rows, 0, cy, s, 0);
    proof {
        assert(s@.skip(0) =~= s@);
    }
    r
}

/// An anchored row exists but the anchor column lies beyond it; a failed
/// remove pulls the cursor column back to the row's true length there.
pub open spec fn heals_cursor(rows: Seq<Seq<char>>, cx: int, cy: int, s: Seq<char>) -> bool {
    &&& s.len() > 0
    &&& !is_nl(s.first())
    &&& 0 <= cy < rows.len()
    &&& cx > rows[cy].len()
}

/// Verify that the payload reads at the anchor in the live buffer, and only
/// then delete exactly that many positions; any mismatch anywhere leaves
/// the buffer untouched. An empty payload never changes anything.
pub fn perform_remove(state: &mut EditBufferState, section: &Section, s: &Vec<char>)
    -> (r: EditOutcome)
    ensures
        s@.len() == 0 ==> r == EditOutcome::Unchanged && *final(state) == *old(state),
        removes(buf_rows(*old(state)), sec_cx(*section), sec_cy(*section), s@) ==> {
            &&& r == EditOutcome::Changed
            &&& buf_rows(*final(state)) == del_replay(buf_rows(*old(state)), sec_cx(*section),
                sec_cy(*section), s@.len())
            &&& final(state).dirty
            &&& same_viewport(*final(state), *old(state))
            &&& final(state).cx == sec_cx(*section)
            &&& final(state).cy == sec_cy(*section)
        },
        s@.len() > 0 && !match_spec(buf_rows(*old(state)), sec_cx(*section), sec_cy(*section), s@)
            ==> {
            &&& r == EditOutcome::Unchanged
            &&& final(state).rows == old(state).rows
            &&& final(state).dirty == old(state).dirty
            &&& same_viewport(*final(state), *old(state))
            &&& final(state).cy == old(state).cy
            &&& final(state).cx == if heals_cursor(buf_rows(*old(state)), sec_cx(*section),
                sec_cy(*section), s@) {
                old(state).rows@[sec_cy(*section)].row@.len() as int
            } else {
                old(state).cx as int
            }
        },
{
    let (cx, cy) = match *section {
        Section::Character(coord) => coord,
    };
    if s.len() == 0 {
        return EditOutcome::Unchanged;
    }
    let first = s[0];
    let mut should_delete = false;
    if is_newline(first) {
        let at_end = cy < state.rows.len() && cx == state.rows[cy].row.len();
        if at_end {
            let rest = tail_from(s, 1);
            if rows_match(&state.rows, cy + 1, &rest) {
                should_delete = true;
            }
        }
        proof {
            assert(s@.skip(1) == s@.drop_first());
            assert(should_delete == match_spec(buf_rows(*state), cx as int, cy as int, s@));
        }
    } else {
        if cy < state.rows.len() {
            match crate::text::cx_to_byte_x(&state.rows[cy].row, cx) {
                Some(_) => {
                    if matches_at(&state.rows, cx, cy, s, 0) {
                        should_delete = true;
                    }
                    proof {
                        assert(s@.skip(0) =~= s@);
                    }
                }
                None => {
                    let healed = state.rows[cy].row.len();
                    state.cx = healed;
                }
            }
        }
        proof {
            assert(should_delete == match_spec(buf_rows(*old(state)), cx as int, cy as int, s@));
        }
    }
    if should_delete {
        let ghost rows0 = buf_rows(*state);
        let n = s.len();
        let mut k: usize = 0;
        proof {
            assert(s@.skip(0) =~= s@);
        }
        while k < n
            invariant
                k <= n,
                n == s@.len(),
                n > 0,
                rows0 == buf_rows(*old(state)),
                match_spec(buf_rows(*state), cx as int, cy as int, s@.skip(k as int)),
                del_replay(buf_rows(*state), cx as int, cy as int, (n - k) as nat)
                    == del_replay(rows0, cx as int, cy as int, n as nat),
                same_viewport(*state, *old(state)),
                k == 0 ==> state.cx == old(state).cx && state.cy == old(state).cy
                    && state.dirty == old(state).dirty && state.rows == old(state).rows,
                k > 0 ==> state.cx == cx && state.cy == cy && state.dirty,
            decreases n - k,
        {
            proof {
                assert(s@.skip(k as int).len() > 0);
                assert(s@.skip(k as int).first() == s@[k as int]);
                assert(s@.skip(k as int).drop_first() =~= s@.skip(k + 1 as int));
                lemma_match_step_del(buf_rows(*state), cx as int, cy as int, s@.skip(k as int));
            }
            del_char(state, (cx, cy));
            k += 1;
        }
        proof {
            assert(s@.skip(n as int) =~= Seq::<char>::empty());
        }
        EditOutcome::Changed
    } else {
        EditOutcome::Unchanged
    }
}

/// Apply an edit against the buffer: validate the anchor, then insert or
/// remove through the validating applier. Reports whether content changed.
pub fn no_history_perform_edit(state: &mut EditBufferState, edit: &Edit) -> (r: EditOutcome)
    ensures
        (r == EditOutcome::Changed) == apply_model(buf_rows(*old(state)), edit@).1,
        buf_rows(*final(state)) == apply_model(buf_rows(*old(state)), edit@).0,
        same_viewport(*final(state), *old(state)),
        r == EditOutcome::Changed ==> final(state).dirty,
        r == EditOutcome::Unchanged ==> final(state).rows == old(state).rows
            && final(state).dirty == old(state).dirty
            && final(state).cx == old(state).cx && final(state).cy == old(state).cy,
{
    match edit {
        Edit::Insert(section, s) => {
            if state.section_type(section) == SectionType::NormalRow {
                perform_insert(state, section, s)
            } else {
                EditOutcome::Unchanged
            }
        }
        Edit::Remove(section, s) => {
            if state.section_type(section) == SectionType::NormalRow {
                perform_remove(state, section, s)
            } else {
                EditOutcome::Unchanged
            }
        }
    }
}

/// Reverse an edit against the buffer: apply the structurally inverse edit
/// through the same validating machinery.
pub fn no_history_unperform_edit(state: &mut EditBufferState, edit: &Edit) -> (r: EditOutcome)
    ensures
        (r == EditOutcome::Changed) == apply_model(buf_rows(*old(state)), edit_inverse(edit@)).1,
        buf_rows(*final(state)) == apply_model(buf_rows(*old(state)), edit_inverse(edit@)).0,
        same_viewport(*final(state), *old(state)),
        r == EditOutcome::Changed ==> final(state).dirty,
        r == EditOutcome::Unchanged ==> final(state).rows == old(state).rows
            && final(state).dirty == old(state).dirty
            && final(state).cx == old(state).cx && final(state).cy == old(state).cy,
{
    match edit {
        Edit::Insert(section, s) => {
            if state.section_type(section) == SectionType::NormalRow {
                perform_remove(state, section, s)
            } else {
                EditOutcome::Unchanged
            }
        }
        Edit::Remove(section, s) => {
            if state.section_type(section) == SectionType::NormalRow {
                perform_insert(state, section, s)
            } else {
                EditOutcome::Unchanged
            }
        }
    }
}

} // verus!
