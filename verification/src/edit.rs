//! Edits and their anchors. An `Edit` is an immutable description of one
//! content change; it records an intention, not a snapshot, so the applier
//! re-validates it against live content before mutating.

use vstd::prelude::*;

verus! {

/// Anchor of an edit: a (column, line) position, counted in scalar values.
#[derive(Clone, Copy, Debug)]
pub enum Section {
    Character((usize, usize)),
}

impl PartialEq for Section {
    fn eq(&self, other: &Section) -> (r: bool) {
        match (self, other) {
            (Section::Character((ax, ay)), Section::Character((bx, by))) => {
                *ax == *bx && *ay == *by
            }
        }
    }
}

impl vstd::std_specs::cmp::PartialEqSpecImpl for Section {
    open spec fn obeys_eq_spec() -> bool {
        true
    }

    open spec fn eq_spec(&self, other: &Section) -> bool {
        sec_cx(*self) == sec_cx(*other) && sec_cy(*self) == sec_cy(*other)
    }
}

/// Column of an anchor.
pub open spec fn sec_cx(s: Section) -> int {
    match s {
        Section::Character((cx, _)) => cx as int,
    }
}

/// Line of an anchor.
pub open spec fn sec_cy(s: Section) -> int {
    match s {
        Section::Character((_, cy)) => cy as int,
    }
}

/// Mathematical form of an edit: kind, anchor coordinates, payload.
pub enum EditM {
    Insert((int, int), Seq<char>),
    Remove((int, int), Seq<char>),
}

/// The structurally inverse edit: the payload reinterpreted with the
/// opposite kind at the same anchor.
pub open spec fn edit_inverse(e: EditM) -> EditM {
    match e {
        EditM::Insert(p, s) => EditM::Remove(p, s),
        EditM::Remove(p, s) => EditM::Insert(p, s),
    }
}

/// One content change: insert or remove `text` at the anchor.
#[derive(Debug, PartialEq)]
pub enum Edit {
    Insert(Section, Vec<char>),
    Remove(Section, Vec<char>),
}

impl View for Edit {
    type V = EditM;

    open spec fn view(&self) -> EditM {
        match self {
            Edit::Insert(sec, t) => EditM::Insert((sec_cx(*sec), sec_cy(*sec)), t@),
            Edit::Remove(sec, t) => EditM::Remove((sec_cx(*sec), sec_cy(*sec)), t@),
        }
    }
}

impl Clone for Edit {
    /// A copy with the same kind, anchor and payload.
    fn clone(&self) -> (r: Edit)
        ensures
            r@ == self@,
    {
        match self {
            Edit::Insert(sec, t) => Edit::Insert(*sec, clone_chars(t)),
            Edit::Remove(sec, t) => Edit::Remove(*sec, clone_chars(t)),
        }
    }
}

/// A copy of a line of text.
pub fn clone_chars(s: &Vec<char>) -> (r: Vec<char>)
    ensures
        r@ == s@,
{
    let mut r: Vec<char> = Vec::new();
    let mut i: usize = 0;
    while i < s.len()
        invariant
            i <= s@.len(),
            r@ == s@.take(i as int),
        decreases s@.len() - i,
    {
        r.push(s[i]);
        proof {
            assert(r@ =~= s@.take(i + 1 as int));
        }
        i += 1;
    }
    proof {
        assert(s@.take(s@.len() as int) =~= s@);
    }
    r
}

/// Structural equality of two edits: same kind, same anchor, same payload.
pub fn edits_equal(a: &Edit, b: &Edit) -> (r: bool)
    ensures
        r <==> a@ == b@,
{
    match (a, b) {
        (Edit::Insert(sa, ta), Edit::Insert(sb, tb)) => {
            *sa == *sb && crate::text::chars_eq(ta, tb)
        }
        (Edit::Remove(sa, ta), Edit::Remove(sb, tb)) => {
            *sa == *sb && crate::text::chars_eq(ta, tb)
        }
        _ => false,
    }
}

/// Validity class of an anchor against a buffer: `NormalRow` when the line
/// exists and the column is at most its length, `Invalid` otherwise.
#[derive(Clone, Copy, Debug, PartialEq, Eq, Structural)]
pub enum SectionType {
    NormalRow,
    Invalid,
}

/// What applying an edit reports: whether the buffer content changed.
#[derive(Clone, Copy, Debug, PartialEq, Eq, Structural)]
pub enum EditOutcome {
    Changed,
    Unchanged,
}

} // verus!
