//! The flat text form of a buffer: on save every row becomes one line
//! terminated by a line feed (the last row included); on open the text is
//! split at line feeds and each line is stripped of trailing break
//! characters, normalizing the line-ending convention on read. Reading and
//! writing the bytes themselves is the caller's business.

use vstd::prelude::*;

verus! {

use crate::row::Row;
use crate::buffer::rows_seq;
use crate::text::{is_newline, is_nl};

/// The serialized form: each row's scalar values followed by one line feed.
pub open spec fn flatten_rows(rows: Seq<Seq<char>>) -> Seq<char>
    decreases rows.len(),
{
    if rows.len() == 0 {
        Seq::empty()
    } else {
        flatten_rows(rows.drop_last()) + rows.last() + seq!['\n']
    }
}

/// A line with its trailing break characters removed.
pub open spec fn strip_trailing_breaks(s: Seq<char>) -> Seq<char>
    decreases s.len(),
{
    if s.len() > 0 && is_nl(s.last()) {
        strip_trailing_breaks(s.drop_last())
    } else {
        s
    }
}

/// Index of the first line feed, or the length when there is none.
pub open spec fn first_newline(s: Seq<char>) -> int
    decreases s.len(),
{
    if s.len() == 0 {
        0
    } else if s.first() == '\n' {
        0
    } else {
        1 + first_newline(s.drop_first())
    }
}

/// The first line feed lies within the text or just past it.
pub proof fn lemma_first_newline_le(s: Seq<char>)
    ensures
        0 <= first_newline(s) <= s.len(),
    decreases s.len(),
{
    if s.len() > 0 && s.first() != '\n' {
        lemma_first_newline_le(s.drop_first());
    }
}

/// A position with no line feed before it and one at it (or the end of the
/// text) is the first line feed.
pub proof fn lemma_first_newline_at(s: Seq<char>, i: int)
    requires
        0 <= i <= s.len(),
        forall|k: int| 0 <= k < i ==> s[k] != '\n',
        i == s.len() || s[i] == '\n',
    ensures
        first_newline(s) == i,
    decreases i,
{
    if i > 0 {
        assert(s.first() != '\n');
        assert forall|k: int| 0 <= k < i - 1 implies s.drop_first()[k] != '\n' by {
            assert(s.drop_first()[k] == s[k + 1]);
        }
        lemma_first_newline_at(s.drop_first(), i - 1);
    } else {
        if s.len() > 0 {
            assert(s[0] == '\n');
        }
    }
}

/// The lines of a flat text: split at each line feed, the final segment a
/// line of its own when the text does not end in one, every line stripped
/// of trailing break characters.
pub open spec fn split_lines(text: Seq<char>) -> Seq<Seq<char>>
    decreases text.len(),
    via split_lines_decreases
{
    if text.len() == 0 {
        Seq::empty()
    } else {
        let n = first_newline(text);
        let line = strip_trailing_breaks(text.take(n));
        if n == text.len() {
            seq![line]
        } else {
            seq![line] + split_lines(text.skip(n + 1))
        }
    }
}

#[via_fn]
proof fn split_lines_decreases(text: Seq<char>) {
    lemma_first_newline_le(text);
}

/// The contents of a sequence of built lines.
pub open spec fn lines_view(lines: Seq<Vec<char>>) -> Seq<Seq<char>> {
    lines.map_values(|l: Vec<char>| l@)
}

/// Serialize the rows to flat text: each row followed by one line feed,
/// the last row included.
pub fn rows_to_text(rows: &Vec<Row>) -> (r: Vec<char>)
    ensures
        r@ == flatten_rows(rows_seq(rows@)),
{
    let mut out: Vec<char> = Vec::new();
    let mut i: usize = 0;
    while i < rows.len()
        invariant
            i <= rows@.len(),
            out@ == flatten_rows(rows_seq(rows@).take(i as int)),
        decreases rows@.len() - i,
    {
        let row = &rows[i].row;
        let mut j: usize = 0;
        while j < row.len()
            invariant
                j <= row@.len(),
                row@ == rows@[i as int].row@,
                i < rows@.len(),
                out@ == flatten_rows(rows_seq(rows@).take(i as int)) + row@.take(j as int),
            decreases row@.len() - j,
        {
            out.push(row[j]);
            proof {
                assert(out@ =~= flatten_rows(rows_seq(rows@).take(i as int))
                    + row@.take(j + 1 as int));
            }
            j += 1;
        }
        out.push('\n');
        proof {
            let rs = rows_seq(rows@);
            assert(rs.take(i + 1 as int).drop_last() =~= rs.take(i as int));
            assert(rs.take(i + 1 as int).last() == rs[i as int]);
            assert(row@.take(row@.len() as int) =~= row@);
            assert(out@ =~= flatten_rows(rs.take(i as int)) + rs[i as int] + seq!['\n']);
        }
        i += 1;
    }
    proof {
        assert(rows_seq(rows@).take(rows@.len() as int) =~= rows_seq(rows@));
    }
    out
}

/// Split flat text into lines: at each line feed, with a final unterminated
/// segment forming a last line, and trailing break characters stripped
/// from every line.
pub fn text_to_lines(text: &Vec<char>) -> (r: Vec<Vec<char>>)
    ensures
        lines_view(r@) == split_lines(text@),
{
    let mut result: Vec<Vec<char>> = Vec::new();
    let mut p: usize = 0;
    proof {
        assert(text@.skip(0) =~= text@);
    }
    while p < text.len()
        invariant
            p <= text@.len(),
            lines_view(result@) + split_lines(text@.skip(p as int)) == split_lines(text@),
        decreases text@.len() - p,
    {
        let ghost seg = text@.skip(p as int);
        let mut q = p;
        while q < text.len() && text[q] != '\n'
            invariant
                p <= q <= text@.len(),
                forall|k: int| p <= k < q ==> text@[k] != '\n',
            decreases text@.len() - q,
        {
            q += 1;
        }
        proof {
            assert forall|k: int| 0 <= k < q - p implies seg[k] != '\n' by {
                assert(seg[k] == text@[p + k]);
            }
            if q < text@.len() {
                assert(seg[q - p] == text@[q as int]);
            }
            lemma_first_newline_at(seg, q - p);
        }
        let mut line: Vec<char> = Vec::new();
        let mut t = p;
        while t < q
            invariant
                p <= t <= q <= text@.len(),
                line@ == text@.subrange(p as int, t as int),
            decreases q - t,
        {
            line.push(text[t]);
            proof {
                assert(line@ =~= text@.subrange(p as int, t + 1 as int));
            }
            t += 1;
        }
        proof {
            assert(line@ =~= seg.take(q - p));
        }
        while line.len() > 0 && is_newline(line[line.len() - 1])
            invariant
                strip_trailing_breaks(line@) == strip_trailing_breaks(seg.take(q - p)),
            decreases line@.len(),
        {
            proof {
                assert(line@.last() == line@[line@.len() - 1]);
            }
            line.pop();
        }
        proof {
            assert(strip_trailing_breaks(line@) == line@);
        }
        result.push(line);
        proof {
            let lv0 = lines_view(result@.drop_last());
            assert(result@.drop_last() =~= result@.subrange(0, result@.len() - 1));
            assert(lines_view(result@) =~= lines_view(result@.drop_last()).push(line@));
            if q < text@.len() {
                assert(seg.skip((q - p) + 1) =~= text@.skip(q + 1 as int));
                assert(lines_view(result@) + split_lines(text@.skip(q + 1 as int))
                    =~= lines_view(result@.drop_last()) + split_lines(seg));
            } else {
                assert(q - p == seg.len());
                assert(text@.skip(text@.len() as int) =~= Seq::<char>::empty());
                assert(lines_view(result@) + split_lines(text@.skip(text@.len() as int))
                    =~= lines_view(result@.drop_last()) + split_lines(seg));
            }
        }
        if q < text.len() {
            p = q + 1;
        } else {
            p = q;
        }
    }
    proof {
        assert(text@.skip(text@.len() as int) =~= Seq::<char>::empty());
        assert(lines_view(result@) + split_lines(Seq::<char>::empty()) =~= lines_view(result@));
    }
    result
}

} // verus!
