//! A single line of the buffer: its text, its position index, and the
//! derived render cache (tabs expanded to spaces) kept for the rendering
//! collaborator together with its per-cell highlight classes.

use vstd::prelude::*;

verus! {

use crate::text::cx_to_byte_x;
use vstd::math::min;

/// Width of one tab stop in render columns.
pub const ROTE_TAB_STOP: usize = 4;

/// Highlight class of one rendered cell; the rendering collaborator maps
/// these to colours.
#[derive(Clone, Copy, Debug, PartialEq, Eq, Structural)]
pub enum EditorHighlight {
    Normal,
    Comment,
    MultilineComment,
    Keyword1,
    Keyword2,
    String,
    Number,
    Match,
}

/// Terminal colour code for a highlight class.
pub fn syntax_to_color(highlight: EditorHighlight) -> (c: i32)
    ensures
        c == syntax_color_spec(highlight),
{
    match highlight {
        EditorHighlight::Comment | EditorHighlight::MultilineComment => 36,
        EditorHighlight::Keyword1 => 33,
        EditorHighlight::Keyword2 => 32,
        EditorHighlight::String => 35,
        EditorHighlight::Number => 31,
        EditorHighlight::Match => 34,
        EditorHighlight::Normal => 37,
    }
}

pub open spec fn syntax_color_spec(highlight: EditorHighlight) -> int {
    match highlight {
        EditorHighlight::Comment | EditorHighlight::MultilineComment => 36,
        EditorHighlight::Keyword1 => 33,
        EditorHighlight::Keyword2 => 32,
        EditorHighlight::String => 35,
        EditorHighlight::Number => 31,
        EditorHighlight::Match => 34,
        EditorHighlight::Normal => 37,
    }
}

/// Whether `char::is_whitespace` holds of a character. The result depends
/// on the character alone; vstd gives the method no specification.
pub uninterp spec fn is_whitespace_of(c: char) -> bool;

/// Relies on `char::is_whitespace` from std: the Unicode white-space
/// property of the character, named `is_whitespace_of` here.
pub assume_specification[ char::is_whitespace ](c: char) -> (r: bool)
    ensures
        r == is_whitespace_of(c),
;

/// True for characters that end a word for highlighting purposes.
pub fn is_separator(c: char) -> (r: bool)
    ensures
        r == is_separator_spec(c),
{
    c.is_whitespace() || c == '\0' || c == ',' || c == '.' || c == '(' || c == ')' || c == '+'
        || c == '-' || c == '/' || c == '*' || c == '=' || c == '~' || c == '%' || c == '<'
        || c == '>' || c == '[' || c == ']' || c == ';'
}

pub open spec fn is_separator_spec(c: char) -> bool {
    is_whitespace_of(c) || c == '\0' || c == ',' || c == '.' || c == '(' || c == ')' || c == '+'
        || c == '-' || c == '/' || c == '*' || c == '=' || c == '~' || c == '%' || c == '<'
        || c == '>' || c == '[' || c == ']' || c == ';'
}

/// What one character contributes to the render cache when the render is
/// already `col` cells wide: a tab pads to the next tab stop, anything else
/// is itself.
pub open spec fn expand_char(c: char, col: int) -> Seq<char> {
    if c == '\t' {
        Seq::new((ROTE_TAB_STOP - (col % (ROTE_TAB_STOP as int))) as nat, |i: int| ' ')
    } else {
        seq![c]
    }
}

/// The render cache of a line: every tab expanded to spaces up to the next
/// tab stop, all other characters unchanged.
pub open spec fn tab_expand(s: Seq<char>) -> Seq<char>
    decreases s.len(),
{
    if s.len() == 0 {
        Seq::empty()
    } else {
        let prev = tab_expand(s.drop_last());
        prev + expand_char(s.last(), prev.len() as int)
    }
}

/// One line of the buffer.
#[derive(Clone, Debug, PartialEq)]
pub struct Row {
    /// Position of this row in the buffer, renumbered on structural change.
    pub index: usize,
    /// The text of the line, one entry per scalar value, no line breaks.
    pub row: Vec<char>,
    /// Render cache: `tab_expand` of `row`.
    pub render: Vec<char>,
    /// Highlight class per render cell.
    pub highlight: Vec<EditorHighlight>,
    /// Whether a multi-line comment stays open at the end of this row.
    pub highlight_open_comment: bool,
}

/// The render cache and highlight vector agree with the text.
pub open spec fn row_cache_ok(r: Row) -> bool {
    &&& r.render@ == tab_expand(r.row@)
    &&& r.highlight@.len() == r.render@.len()
}

impl Default for Row {
    /// An empty row at index 0.
    fn default() -> (r: Row)
        ensures
            r.index == 0,
            r.row@ == Seq::<char>::empty(),
            r.render@ == Seq::<char>::empty(),
            r.highlight@ == Seq::<EditorHighlight>::empty(),
            !r.highlight_open_comment,
    {
        Row { index: 0, row: Vec::new(), render: Vec::new(), highlight: Vec::new(),
            highlight_open_comment: false }
    }
}

/// Recompute the render cache and the highlight vector of `row` from its
/// text; the text, index and open-comment flag stay as they are. With no
/// active syntax every cell is highlighted `Normal`.
pub fn update_row(row: &mut Row)
    ensures
        final(row).index == old(row).index,
        final(row).row@ == old(row).row@,
        final(row).highlight_open_comment == old(row).highlight_open_comment,
        final(row).render@ == tab_expand(old(row).row@),
        final(row).highlight@.len() == final(row).render@.len(),
        forall|k: int| 0 <= k < final(row).highlight@.len()
            ==> final(row).highlight@[k] == EditorHighlight::Normal,
{
    let ghost text = row.row@;
    let mut render: Vec<char> = Vec::new();
    let mut i: usize = 0;
    while i < row.row.len()
        invariant
            i <= row.row@.len(),
            row.row@ == text,
            render@ == tab_expand(text.take(i as int)),
        decreases row.row@.len() - i,
    {
        let c = row.row[i];
        if c == '\t' {
            render.push(' ');
            while render.len() % ROTE_TAB_STOP != 0
                invariant
                    render@.len() > 0,
                    render@ == tab_expand(text.take(i as int))
                        + Seq::new((render@.len() - tab_expand(text.take(i as int)).len()) as nat,
                            |k: int| ' '),
                    render@.len() - tab_expand(text.take(i as int)).len() >= 1,
                    render@.len() - tab_expand(text.take(i as int)).len()
                        <= ROTE_TAB_STOP - (tab_expand(text.take(i as int)).len() as int)
                            % (ROTE_TAB_STOP as int),
                decreases ((ROTE_TAB_STOP as int) - (render@.len() as int) % (ROTE_TAB_STOP as int))
                    % (ROTE_TAB_STOP as int),
            {
                render.push(' ');
            }
        } else {
            render.push(c);
        }
        proof {
            assert(text.take(i + 1 as int).drop_last() =~= text.take(i as int));
            assert(text.take(i + 1 as int).last() == text[i as int]);
            if c == '\t' {
                let prev = tab_expand(text.take(i as int));
                assert((render@.len() as int) % (ROTE_TAB_STOP as int) == 0);
                assert(render@ =~= prev + expand_char('\t', prev.len() as int));
            } else {
                assert(render@ =~= tab_expand(text.take(i as int))
                    + expand_char(c, tab_expand(text.take(i as int)).len() as int));
            }
        }
        i += 1;
    }
    proof {
        assert(text.take(text.len() as int) =~= text);
    }
    let mut highlight: Vec<EditorHighlight> = Vec::new();
    let mut j: usize = 0;
    while j < render.len()
        invariant
            j <= render@.len(),
            highlight@.len() == j,
            forall|k: int| 0 <= k < j ==> highlight@[k] == EditorHighlight::Normal,
        decreases render@.len() - j,
    {
        highlight.push(EditorHighlight::Normal);
        j += 1;
    }
    row.render = render;
    row.highlight = highlight;
}

impl Row {
    /// A fresh row at position `at` holding the text `s`, with its caches
    /// computed.
    pub fn new(at: usize, s: Vec<char>) -> (r: Row)
        ensures
            r.index == at,
            r.row@ == s@,
            !r.highlight_open_comment,
            row_cache_ok(r),
    {
        let mut row = Row { index: at, row: s, render: Vec::new(), highlight: Vec::new(),
            highlight_open_comment: false };
        update_row(&mut row);
        row
    }
}

/// Render column reached after the first `min(cx, line length)` characters
/// of the line: the width of their expansion.
pub fn row_cx_to_rx(row: &Row, cx: usize) -> (rx: usize)
    requires
        4 * row.row@.len() <= usize::MAX,
    ensures
        rx == tab_expand(row.row@.take(min(cx as int, row.row@.len() as int))).len(),
{
    let ghost text = row.row@;
    let end = if cx < row.row.len() { cx } else { row.row.len() };
    let mut rx: usize = 0;
    let mut i: usize = 0;
    proof {
        lemma_tab_expand_len_bound(text.take(end as int));
        assert(text.take(0) =~= Seq::<char>::empty());
    }
    while i < end
        invariant
            i <= end,
            end <= row.row@.len(),
            row.row@ == text,
            4 * text.len() <= usize::MAX,
            rx == tab_expand(text.take(i as int)).len(),
        decreases end - i,
    {
        proof {
            lemma_tab_expand_len_bound(text.take(i + 1 as int));
            assert(text.take(i + 1 as int).drop_last() =~= text.take(i as int));
        }
        let c = row.row[i];
        if c == '\t' {
            rx += (ROTE_TAB_STOP - 1) - (rx % ROTE_TAB_STOP);
        }
        rx += 1;
        i += 1;
    }
    rx
}

/// The expansion of a line is at most four cells per character.
pub proof fn lemma_tab_expand_len_bound(s: Seq<char>)
    ensures
        tab_expand(s).len() <= 4 * s.len(),
    decreases s.len(),
{
    if s.len() > 0 {
        lemma_tab_expand_len_bound(s.drop_last());
    }
}

/// Character column whose render cell covers render column `rx`: the first
/// index whose expansion passes `rx`, or the line length when none does.
pub open spec fn rx_to_cx_spec(s: Seq<char>, rx: int, i: int) -> int
    decreases s.len() - i,
{
    if i >= s.len() {
        s.len() as int
    } else if tab_expand(s.take(i + 1)).len() > rx {
        i
    } else {
        rx_to_cx_spec(s, rx, i + 1)
    }
}

/// Inverse of `row_cx_to_rx`: the character column shown at render column
/// `rx`, or the line length when `rx` lies past the rendered line.
pub fn row_rx_to_cx(row: &Row, rx: usize) -> (cx: usize)
    requires
        rx + 4 <= usize::MAX,
    ensures
        cx == rx_to_cx_spec(row.row@, rx as int, 0),
{
    let ghost text = row.row@;
    let mut cur_rx: usize = 0;
    let mut i: usize = 0;
    proof {
        assert(text.take(0) =~= Seq::<char>::empty());
    }
    while i < row.row.len()
        invariant
            i <= text.len(),
            row.row@ == text,
            rx + 4 <= usize::MAX,
            cur_rx == tab_expand(text.take(i as int)).len(),
            cur_rx <= rx,
            rx_to_cx_spec(text, rx as int, 0) == rx_to_cx_spec(text, rx as int, i as int),
        decreases text.len() - i,
    {
        proof {
            assert(text.take(i + 1 as int).drop_last() =~= text.take(i as int));
        }
        let c = row.row[i];
        if c == '\t' {
            cur_rx += (ROTE_TAB_STOP - 1) - (cur_rx % ROTE_TAB_STOP);
        }
        cur_rx += 1;
        if cur_rx > rx {
            return i;
        }
        i += 1;
    }
    proof {
        assert(text.take(text.len() as int) =~= text);
    }
    row.row.len()
}

/// Insert scalar value `c` at column `cx` of the row and refresh the caches;
/// out-of-range columns leave the row as it was.
pub fn row_insert_char(row: &mut Row, cx: usize, c: char)
    ensures
        final(row).index == old(row).index,
        final(row).highlight_open_comment == old(row).highlight_open_comment,
        cx <= old(row).row@.len() ==> {
            &&& final(row).row@ == old(row).row@.insert(cx as int, c)
            &&& row_cache_ok(*final(row))
        },
        cx > old(row).row@.len() ==> *final(row) == *old(row),
{
    match cx_to_byte_x(&row.row, cx) {
        Some(i) => {
            row.row.insert(i, c);
            update_row(row);
        }
        None => {}
    }
}

/// Append the text `s` to the row and refresh the caches.
pub fn row_append_string(row: &mut Row, s: &Vec<char>)
    ensures
        final(row).index == old(row).index,
        final(row).highlight_open_comment == old(row).highlight_open_comment,
        final(row).row@ == old(row).row@ + s@,
        row_cache_ok(*final(row)),
{
    let ghost orig = row.row@;
    let mut i: usize = 0;
    while i < s.len()
        invariant
            i <= s@.len(),
            row.row@ == orig + s@.take(i as int),
            row.index == old(row).index,
            row.highlight_open_comment == old(row).highlight_open_comment,
        decreases s@.len() - i,
    {
        row.row.push(s[i]);
        proof {
            assert(orig + s@.take(i as int) + seq![s@[i as int]] =~= orig + s@.take(i + 1 as int));
        }
        i += 1;
    }
    proof {
        assert(orig + s@.take(s@.len() as int) =~= orig + s@);
    }
    update_row(row);
}

/// Delete the scalar value at column `cx` of the row and refresh the caches;
/// out-of-range columns leave the row as it was.
pub fn row_del_char(row: &mut Row, cx: usize)
    ensures
        final(row).index == old(row).index,
        final(row).highlight_open_comment == old(row).highlight_open_comment,
        cx < old(row).row@.len() ==> {
            &&& final(row).row@ == old(row).row@.remove(cx as int)
            &&& row_cache_ok(*final(row))
        },
        cx >= old(row).row@.len() ==> *final(row) == *old(row),
{
    if cx < row.row.len() {
        row.row.remove(cx);
        update_row(row);
    }
}

} // verus!
