//! Append-only log of edits with a movable cursor. `current` points at the
//! most recently applied edit; it may transiently go stale after truncation
//! and is corrected lazily before any read or mutation that depends on it.

use vstd::prelude::*;

verus! {

use crate::edit::{Edit, EditM};

/// The edit log and its cursor. After correction, `current` is `None` iff
/// the log is empty, and otherwise points inside the log.
#[derive(Clone, Debug, PartialEq)]
pub struct History {
    pub edits: Vec<Edit>,
    pub current: Option<usize>,
}

impl Default for History {
    /// An empty log with no current entry.
    fn default() -> (h: History)
        ensures
            h.edits@.len() == 0,
            h.current is None,
    {
        History { edits: Vec::new(), current: None }
    }
}

/// The log as a sequence of mathematical edits.
pub open spec fn hview(h: History) -> Seq<EditM> {
    h.edits@.map_values(|e: Edit| e@)
}

/// An index option widened to `int`.
pub open spec fn oi(c: Option<usize>) -> Option<int> {
    match c {
        None => None,
        Some(i) => Some(i as int),
    }
}

/// The cursor after lazy correction: an index at or past the end falls back
/// to the last entry, or to `None` when the log is empty.
pub open spec fn spec_corrected(h: History) -> Option<int> {
    match h.current {
        None => None,
        Some(i) => if (i as int) < h.edits@.len() {
            Some(i as int)
        } else if h.edits@.len() == 0 {
            None
        } else {
            Some(h.edits@.len() - 1)
        },
    }
}

/// Index of the entry a redo would apply, given a corrected cursor.
pub open spec fn spec_next_index(h: History) -> int {
    match spec_corrected(h) {
        None => 0,
        Some(i) => i + 1,
    }
}

impl History {
    /// Pull a stale cursor back inside the log; a cursor already inside it,
    /// or absent, stays as it is.
    pub fn correct_current(&mut self)
        ensures
            final(self).edits == old(self).edits,
            oi(final(self).current) == spec_corrected(*old(self)),
    {
        if let Some(i) = self.current {
            let len = self.edits.len();
            if i >= len {
                self.current = if len == 0 { None } else { Some(len - 1) };
            }
        }
    }

    /// Move the cursor one entry forward (after correction); with no current
    /// entry the cursor moves to the first one.
    pub fn inc_current(&mut self)
        ensures
            final(self).edits == old(self).edits,
            oi(final(self).current) == match spec_corrected(*old(self)) {
                None => Some(0int),
                Some(i) => Some(i + 1),
            },
    {
        self.correct_current();
        let n = self.edits.len();
        match self.current {
            None => {
                self.current = Some(0);
            }
            Some(i) => {
                proof {
                    assert(i < n);
                }
                self.current = Some(i + 1);
            }
        }
    }

    /// Move the cursor one entry back (after correction); from the first
    /// entry it becomes `None`.
    pub fn dec_current(&mut self)
        ensures
            final(self).edits == old(self).edits,
            oi(final(self).current) == match spec_corrected(*old(self)) {
                None => None::<int>,
                Some(i) => if i == 0 { None } else { Some(i - 1) },
            },
    {
        self.correct_current();
        match self.current {
            None => {}
            Some(i) => {
                if i == 0 {
                    self.current = None;
                } else {
                    self.current = Some(i - 1);
                }
            }
        }
    }

    /// The edit a redo would apply: the entry after the (corrected) cursor,
    /// or the first entry when there is no current one; `None` at the end of
    /// the log.
    pub fn get_next(&mut self) -> (r: Option<Edit>)
        ensures
            final(self).edits == old(self).edits,
            oi(final(self).current) == spec_corrected(*old(self)),
            match r {
                Some(e) => spec_next_index(*old(self)) < old(self).edits@.len()
                    && e@ == old(self).edits@[spec_next_index(*old(self))]@,
                None => spec_next_index(*old(self)) >= old(self).edits@.len(),
            },
    {
        self.correct_current();
        let n = self.edits.len();
        let index = match self.current {
            None => 0,
            Some(i) => {
                proof {
                    assert(i < n);
                }
                i + 1
            }
        };
        if index < self.edits.len() {
            Some(self.edits[index].clone())
        } else {
            None
        }
    }

    /// The most recently applied edit, or `None` when nothing is applied.
    pub fn get_current(&mut self) -> (r: Option<Edit>)
        ensures
            final(self).edits == old(self).edits,
            oi(final(self).current) == spec_corrected(*old(self)),
            match r {
                Some(e) => {
                    &&& spec_corrected(*old(self)) is Some
                    &&& e@ == old(self).edits@[spec_corrected(*old(self)).unwrap()]@
                },
                None => spec_corrected(*old(self)) is None,
            },
    {
        self.correct_current();
        match self.current {
            None => None,
            Some(i) => {
                if i < self.edits.len() {
                    Some(self.edits[i].clone())
                } else {
                    None
                }
            }
        }
    }

    /// Drop the entry a redo would apply, so a stale entry cannot block
    /// further traversal; the cursor itself does not move.
    pub fn remove_next(&mut self) -> (r: Option<Edit>)
        requires
            match old(self).current {
                Some(i) => i < usize::MAX,
                None => true,
            },
        ensures
            final(self).current == old(self).current,
            ({
                let index = match old(self).current {
                    None => 0int,
                    Some(i) => i + 1,
                };
                if index < old(self).edits@.len() {
                    &&& final(self).edits@ == old(self).edits@.remove(index)
                    &&& r is Some
                    &&& r.unwrap()@ == old(self).edits@[index]@
                } else {
                    &&& final(self).edits == old(self).edits
                    &&& r is None
                }
            }),
    {
        let index = match self.current {
            None => 0,
            Some(i) => i + 1,
        };
        if index < self.edits.len() {
            Some(self.edits.remove(index))
        } else {
            None
        }
    }

    /// Drop the current entry and step the cursor back; used when an undo
    /// finds nothing to undo.
    pub fn remove_current(&mut self) -> (r: Option<Edit>)
        ensures
            match old(self).current {
                None => *final(self) == *old(self) && r is None,
                Some(i) => if (i as int) < old(self).edits@.len() {
                    &&& final(self).edits@ == old(self).edits@.remove(i as int)
                    &&& oi(final(self).current) == (if i == 0 { None } else { Some(i - 1 as int) })
                    &&& r is Some
                    &&& r.unwrap()@ == old(self).edits@[i as int]@
                } else {
                    &&& final(self).edits == old(self).edits
                    &&& oi(final(self).current) == spec_corrected(*old(self))
                    &&& r is None
                },
            },
    {
        match self.current {
            None => None,
            Some(i) => {
                if i < self.edits.len() {
                    self.dec_current();
                    Some(self.edits.remove(i))
                } else {
                    self.correct_current();
                    None
                }
            }
        }
    }
}

} // verus!
