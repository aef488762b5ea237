//! The edit engine: one buffer and one history, driven by `perform_edit`,
//! `undo`, `redo`, `oldest` and `latest`. Every operation is pinned to a
//! functional model over (line contents, edit log, cursor), so the
//! edit-sourcing behaviour — coalescing, truncation, purging of stale
//! entries — is stated once and proved of the code.

use vstd::prelude::*;

verus! {

use crate::apply::{
    apply_model, no_history_perform_edit, no_history_unperform_edit,
};
use crate::buffer::{EditBufferState, buf_rows, same_viewport};
use crate::edit::{Edit, EditM, EditOutcome, edit_inverse, edits_equal};
use crate::history::{History, hview, oi};

/// One buffer together with its edit history.
#[derive(Clone, Debug)]
pub struct EditBuffer {
    pub state: EditBufferState,
    pub history: History,
}

impl Default for EditBuffer {
    /// A buffer holding one empty row and an empty history.
    fn default() -> (eb: EditBuffer)
        ensures
            buf_rows(eb.state) == seq![Seq::<char>::empty()],
            eb.state.cx == 0 && eb.state.cy == 0,
            !eb.state.dirty,
            eb.state.filename is None,
            eb.history.edits@.len() == 0,
            eb.history.current is None,
    {
        EditBuffer { state: EditBufferState::default(), history: History::default() }
    }
}

/// Mathematical state of an edit buffer: line contents, edit log, history
/// cursor.
#[verifier::ext_equal]
pub struct EbModel {
    pub rows: Seq<Seq<char>>,
    pub edits: Seq<EditM>,
    pub current: Option<int>,
}

/// The model of an edit buffer.
pub open spec fn eb_view(eb: EditBuffer) -> EbModel {
    EbModel { rows: buf_rows(eb.state), edits: hview(eb.history), current: oi(eb.history.current) }
}

/// The history cursor after lazy correction, at the model level.
pub open spec fn m_corrected(m: EbModel) -> Option<int> {
    match m.current {
        None => None,
        Some(i) => if 0 <= i < m.edits.len() {
            Some(i)
        } else if m.edits.len() == 0 {
            None
        } else {
            Some(m.edits.len() - 1)
        },
    }
}

/// Index of the entry a redo would apply, at the model level.
pub open spec fn m_next_index(m: EbModel) -> int {
    match m_corrected(m) {
        None => 0,
        Some(i) => i + 1,
    }
}

/// A cursor stepped one entry back.
pub open spec fn dec_idx(i: int) -> Option<int> {
    if i == 0 {
        None
    } else {
        Some(i - 1)
    }
}

/// What `perform_edit` does: apply the edit; when content changed, either
/// recognise it as the edit a redo would apply and merely advance the
/// cursor (coalescing), or truncate the future, append it and point at it.
pub open spec fn perform_model(m: EbModel, e: EditM) -> (EbModel, bool) {
    let applied = apply_model(m.rows, e);
    if !applied.1 {
        (EbModel { rows: applied.0, edits: m.edits, current: m.current }, false)
    } else {
        let nidx = m_next_index(m);
        if nidx < m.edits.len() && m.edits[nidx] == e {
            (EbModel { rows: applied.0, edits: m.edits, current: Some(nidx) }, true)
        } else {
            let kept = match m_corrected(m) {
                Some(i) => m.edits.take(i + 1),
                None => m.edits,
            };
            (EbModel { rows: applied.0, edits: kept.push(e), current: Some(kept.len() as int) },
                true)
        }
    }
}

/// What `unperform_edit` does: reverse-apply the edit and, when content
/// changed, step the cursor back.
pub open spec fn unperform_model(m: EbModel, e: EditM) -> (EbModel, bool) {
    let applied = apply_model(m.rows, edit_inverse(e));
    if !applied.1 {
        (EbModel { rows: applied.0, edits: m.edits, current: m.current }, false)
    } else {
        let cur = match m_corrected(m) {
            None => None,
            Some(i) => dec_idx(i),
        };
        (EbModel { rows: applied.0, edits: m.edits, current: cur }, true)
    }
}

/// What `undo` does: reverse-apply the current entry and step back; when
/// re-validation finds nothing to undo, purge the stale entry instead. The
/// cursor having moved, both count as `Changed`.
pub open spec fn undo_model(m: EbModel) -> (EbModel, bool) {
    match m_corrected(m) {
        None => (EbModel { rows: m.rows, edits: m.edits, current: None }, false),
        Some(i) => {
            let e = m.edits[i];
            let applied = apply_model(m.rows, edit_inverse(e));
            if applied.1 {
                (EbModel { rows: applied.0, edits: m.edits, current: dec_idx(i) }, true)
            } else {
                (EbModel { rows: applied.0, edits: m.edits.remove(i), current: dec_idx(i) }, true)
            }
        },
    }
}

/// What `redo` does: apply the entry after the cursor and advance; when
/// re-validation finds nothing to redo, purge the stale entry instead.
pub open spec fn redo_model(m: EbModel) -> (EbModel, bool) {
    let cc = m_corrected(m);
    let nidx = m_next_index(m);
    if nidx < m.edits.len() {
        let e = m.edits[nidx];
        let applied = apply_model(m.rows, e);
        if applied.1 {
            (EbModel { rows: applied.0, edits: m.edits, current: Some(nidx) }, true)
        } else {
            (EbModel { rows: applied.0, edits: m.edits.remove(nidx), current: cc }, true)
        }
    } else {
        (EbModel { rows: m.rows, edits: m.edits, current: cc }, false)
    }
}

/// Steps an undo chain can still take: the corrected cursor position plus
/// one.
pub open spec fn undo_measure(m: EbModel) -> nat {
    match m_corrected(m) {
        None => 0,
        Some(i) => (i + 1) as nat,
    }
}

/// Steps a redo chain can still take: entries at or after the redo index.
pub open spec fn redo_measure(m: EbModel) -> nat {
    if m_next_index(m) <= m.edits.len() {
        (m.edits.len() - m_next_index(m)) as nat
    } else {
        0
    }
}

/// An undo that reports `Changed` brings the undo measure down; one that
/// reports `Unchanged` leaves the model's measure unchanged.
pub proof fn lemma_undo_measure(m: EbModel)
    ensures
        undo_model(m).1 ==> undo_measure(undo_model(m).0) < undo_measure(m),
        !undo_model(m).1 ==> undo_measure(undo_model(m).0) == undo_measure(m),
{
    match m_corrected(m) {
        None => {}
        Some(i) => {
            let applied = apply_model(m.rows, edit_inverse(m.edits[i]));
            if !applied.1 {
                m.edits.remove_ensures(i);
            }
        }
    }
}

/// A redo that reports `Changed` brings the redo measure down; one that
/// reports `Unchanged` leaves it unchanged.
pub proof fn lemma_redo_measure(m: EbModel)
    ensures
        redo_model(m).1 ==> redo_measure(redo_model(m).0) < redo_measure(m),
        !redo_model(m).1 ==> redo_measure(redo_model(m).0) == redo_measure(m),
{
    let cc = m_corrected(m);
    let nidx = m_next_index(m);
    if nidx < m.edits.len() {
        let applied = apply_model(m.rows, m.edits[nidx]);
        if !applied.1 {
            m.edits.remove_ensures(nidx);
            let m2 = redo_model(m).0;
            assert(m2.edits.len() == m.edits.len() - 1);
            assert(m_corrected(m2) == cc);
        }
    }
}

/// The model after undoing for as long as undo reports `Changed`.
pub open spec fn drain_undo(m: EbModel) -> EbModel
    decreases undo_measure(m),
    via drain_undo_decreases
{
    if undo_model(m).1 {
        drain_undo(undo_model(m).0)
    } else {
        undo_model(m).0
    }
}

#[via_fn]
proof fn drain_undo_decreases(m: EbModel) {
    lemma_undo_measure(m);
}

/// The model after redoing for as long as redo reports `Changed`.
pub open spec fn drain_redo(m: EbModel) -> EbModel
    decreases redo_measure(m),
    via drain_redo_decreases
{
    if redo_model(m).1 {
        drain_redo(redo_model(m).0)
    } else {
        redo_model(m).0
    }
}

#[via_fn]
proof fn drain_redo_decreases(m: EbModel) {
    lemma_redo_measure(m);
}

/// Apply an edit and record the outcome: history grows only when content
/// actually changed and the edit is not the one a redo would apply.
pub fn perform_edit(edit_buffer: &mut EditBuffer, edit: &Edit) -> (r: EditOutcome)
    ensures
        ({
            let step = perform_model(eb_view(*old(edit_buffer)), edit@);
            &&& eb_view(*final(edit_buffer)).rows == step.0.rows
            &&& eb_view(*final(edit_buffer)).edits == step.0.edits
            &&& eb_view(*final(edit_buffer)).current == step.0.current
            &&& (r == EditOutcome::Changed) == step.1
        }),
        same_viewport(final(edit_buffer).state, old(edit_buffer).state),
        r == EditOutcome::Changed ==> final(edit_buffer).state.dirty,
        r == EditOutcome::Unchanged ==> final(edit_buffer).state.rows == old(edit_buffer).state.rows
            && final(edit_buffer).state.cx == old(edit_buffer).state.cx
            && final(edit_buffer).state.cy == old(edit_buffer).state.cy
            && final(edit_buffer).state.dirty == old(edit_buffer).state.dirty,
{
    let outcome = no_history_perform_edit(&mut edit_buffer.state, edit);
    if outcome == EditOutcome::Changed {
        let next = edit_buffer.history.get_next();
        let differs = match &next {
            Some(e) => !edits_equal(edit, e),
            None => true,
        };
        if differs {
            if let Some(i) = edit_buffer.history.current {
                let hlen = edit_buffer.history.edits.len();
                if i < hlen {
                    edit_buffer.history.edits.truncate(i + 1);
                    proof {
                        assert(hview(edit_buffer.history)
                            =~= hview(old(edit_buffer).history).take(i + 1));
                    }
                }
            }
            edit_buffer.history.edits.push(edit.clone());
            let len = edit_buffer.history.edits.len();
            edit_buffer.history.current = Some(len - 1);
            proof {
                let m = eb_view(*old(edit_buffer));
                let kept = match m_corrected(m) {
                    Some(i) => m.edits.take(i + 1),
                    None => m.edits,
                };
                assert(hview(edit_buffer.history) =~= kept.push(edit@));
            }
        } else {
            edit_buffer.history.inc_current();
        }
    }
    outcome
}

/// Reverse-apply an edit and, when content changed, step the history
/// cursor back.
pub fn unperform_edit(edit_buffer: &mut EditBuffer, edit: &Edit) -> (r: EditOutcome)
    ensures
        ({
            let step = unperform_model(eb_view(*old(edit_buffer)), edit@);
            &&& eb_view(*final(edit_buffer)).rows == step.0.rows
            &&& eb_view(*final(edit_buffer)).edits == step.0.edits
            &&& eb_view(*final(edit_buffer)).current == step.0.current
            &&& (r == EditOutcome::Changed) == step.1
        }),
        same_viewport(final(edit_buffer).state, old(edit_buffer).state),
        r == EditOutcome::Changed ==> final(edit_buffer).state.dirty,
        r == EditOutcome::Unchanged ==> final(edit_buffer).state.rows == old(edit_buffer).state.rows
            && final(edit_buffer).state.cx == old(edit_buffer).state.cx
            && final(edit_buffer).state.cy == old(edit_buffer).state.cy
            && final(edit_buffer).state.dirty == old(edit_buffer).state.dirty,
{
    let outcome = no_history_unperform_edit(&mut edit_buffer.state, edit);
    if outcome == EditOutcome::Changed {
        edit_buffer.history.dec_current();
    }
    outcome
}

/// Undo the most recently applied edit: reverse-apply it after
/// re-validation, stepping the cursor back, or purge it when it no longer
/// matches live content. `Unchanged` only when there is nothing to undo.
pub fn undo(edit_buffer: &mut EditBuffer) -> (r: EditOutcome)
    ensures
        ({
            let step = undo_model(eb_view(*old(edit_buffer)));
            &&& eb_view(*final(edit_buffer)).rows == step.0.rows
            &&& eb_view(*final(edit_buffer)).edits == step.0.edits
            &&& eb_view(*final(edit_buffer)).current == step.0.current
            &&& (r == EditOutcome::Changed) == step.1
        }),
        same_viewport(final(edit_buffer).state, old(edit_buffer).state),
        r == EditOutcome::Unchanged ==> final(edit_buffer).state.rows == old(edit_buffer).state.rows
            && final(edit_buffer).state.cx == old(edit_buffer).state.cx
            && final(edit_buffer).state.cy == old(edit_buffer).state.cy
            && final(edit_buffer).state.dirty == old(edit_buffer).state.dirty,
{
    let current = edit_buffer.history.get_current();
    match current {
        Some(edit) => {
            let outcome = no_history_unperform_edit(&mut edit_buffer.state, &edit);
            if outcome == EditOutcome::Changed {
                edit_buffer.history.dec_current();
            } else {
                edit_buffer.history.remove_current();
                proof {
                    let m = eb_view(*old(edit_buffer));
                    let i = m_corrected(m).unwrap();
                    assert(hview(edit_buffer.history) =~= m.edits.remove(i));
                }
            }
            EditOutcome::Changed
        }
        None => EditOutcome::Unchanged,
    }
}

/// Redo the edit after the cursor: apply it after re-validation, advancing
/// the cursor, or purge it when it no longer matches live content.
/// `Unchanged` only when there is nothing to redo.
pub fn redo(edit_buffer: &mut EditBuffer) -> (r: EditOutcome)
    ensures
        ({
            let step = redo_model(eb_view(*old(edit_buffer)));
            &&& eb_view(*final(edit_buffer)).rows == step.0.rows
            &&& eb_view(*final(edit_buffer)).edits == step.0.edits
            &&& eb_view(*final(edit_buffer)).current == step.0.current
            &&& (r == EditOutcome::Changed) == step.1
        }),
        same_viewport(final(edit_buffer).state, old(edit_buffer).state),
        r == EditOutcome::Unchanged ==> final(edit_buffer).state.rows == old(edit_buffer).state.rows
            && final(edit_buffer).state.cx == old(edit_buffer).state.cx
            && final(edit_buffer).state.cy == old(edit_buffer).state.cy
            && final(edit_buffer).state.dirty == old(edit_buffer).state.dirty,
{
    let next = edit_buffer.history.get_next();
    match next {
        Some(edit) => {
            let outcome = no_history_perform_edit(&mut edit_buffer.state, &edit);
            if outcome == EditOutcome::Changed {
                edit_buffer.history.inc_current();
            } else {
                let hlen = edit_buffer.history.edits.len();
                proof {
                    if let Some(i) = edit_buffer.history.current {
                        assert(i < hlen);
                    }
                }
                edit_buffer.history.remove_next();
                proof {
                    let m = eb_view(*old(edit_buffer));
                    assert(hview(edit_buffer.history) =~= m.edits.remove(m_next_index(m)));
                }
            }
            EditOutcome::Changed
        }
        None => EditOutcome::Unchanged,
    }
}

/// Undo until undo reports `Unchanged`; `Changed` when at least one undo
/// changed something.
pub fn oldest(edit_buffer: &mut EditBuffer) -> (r: EditOutcome)
    ensures
        ({
            let m0 = eb_view(*old(edit_buffer));
            &&& eb_view(*final(edit_buffer)).rows == drain_undo(m0).rows
            &&& eb_view(*final(edit_buffer)).edits == drain_undo(m0).edits
            &&& eb_view(*final(edit_buffer)).current == drain_undo(m0).current
            &&& (r == EditOutcome::Changed) == undo_model(m0).1
        }),
        same_viewport(final(edit_buffer).state, old(edit_buffer).state),
{
    let ghost m0 = eb_view(*old(edit_buffer));
    let mut outcome = EditOutcome::Unchanged;
    let mut r = undo(edit_buffer);
    proof {
        assert(eb_view(*edit_buffer) =~= undo_model(m0).0);
    }
    while r == EditOutcome::Changed
        invariant
            drain_undo(eb_view(*edit_buffer)) == drain_undo(m0),
            r == EditOutcome::Unchanged ==> eb_view(*edit_buffer) == drain_undo(m0),
            outcome == EditOutcome::Changed ==> undo_model(m0).1,
            r == EditOutcome::Changed ==> undo_model(m0).1,
            undo_model(m0).1 ==> outcome == EditOutcome::Changed || r == EditOutcome::Changed,
            same_viewport(edit_buffer.state, old(edit_buffer).state),
        decreases undo_measure(eb_view(*edit_buffer)),
            (if r == EditOutcome::Changed { 1int } else { 0int }),
    {
        outcome = EditOutcome::Changed;
        let ghost prev = eb_view(*edit_buffer);
        proof {
            lemma_undo_measure(prev);
        }
        r = undo(edit_buffer);
        proof {
            assert(eb_view(*edit_buffer) =~= undo_model(prev).0);
        }
    }
    outcome
}

/// Redo until redo reports `Unchanged`; `Changed` when at least one redo
/// changed something.
pub fn latest(edit_buffer: &mut EditBuffer) -> (r: EditOutcome)
    ensures
        ({
            let m0 = eb_view(*old(edit_buffer));
            &&& eb_view(*final(edit_buffer)).rows == drain_redo(m0).rows
            &&& eb_view(*final(edit_buffer)).edits == drain_redo(m0).edits
            &&& eb_view(*final(edit_buffer)).current == drain_redo(m0).current
            &&& (r == EditOutcome::Changed) == redo_model(m0).1
        }),
        same_viewport(final(edit_buffer).state, old(edit_buffer).state),
{
    let ghost m0 = eb_view(*old(edit_buffer));
    let mut outcome = EditOutcome::Unchanged;
    let mut r = redo(edit_buffer);
    proof {
        assert(eb_view(*edit_buffer) =~= redo_model(m0).0);
    }
    while r == EditOutcome::Changed
        invariant
            drain_redo(eb_view(*edit_buffer)) == drain_redo(m0),
            r == EditOutcome::Unchanged ==> eb_view(*edit_buffer) == drain_redo(m0),
            outcome == EditOutcome::Changed ==> redo_model(m0).1,
            r == EditOutcome::Changed ==> redo_model(m0).1,
            redo_model(m0).1 ==> outcome == EditOutcome::Changed || r == EditOutcome::Changed,
            same_viewport(edit_buffer.state, old(edit_buffer).state),
        decreases redo_measure(eb_view(*edit_buffer)),
            (if r == EditOutcome::Changed { 1int } else { 0int }),
    {
        outcome = EditOutcome::Changed;
        let ghost prev = eb_view(*edit_buffer);
        proof {
            lemma_redo_measure(prev);
        }
        r = redo(edit_buffer);
        proof {
            assert(eb_view(*edit_buffer) =~= redo_model(prev).0);
        }
    }
    outcome
}

} // verus!
