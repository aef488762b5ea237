//! The laws of the edit-sourcing model, proved of the same spec functions
//! that the executable functions are specified with. Content is compared as
//! line contents (`rows`); the applier never touches the file name, so
//! equal rows here is weak isomorphism of the buffer states.

use vstd::prelude::*;

verus! {

use crate::apply::{
    apply_model, del_replay, lemma_del_after_ins, lemma_ins_after_del, lemma_match_after_ins,
    lemma_match_step_del, lemma_replay_ins_valid, match_spec, replay_ins,
};
use crate::buffer::{EditBufferState, buf_rows, del_step, fname_view, valid_anchor, weak_iso};
use crate::edit::{EditM, edit_inverse};
use crate::engine::{
    EbModel, drain_redo, drain_undo, lemma_redo_measure, lemma_undo_measure,
    m_corrected, m_next_index, perform_model, redo_model, undo_model, undo_measure,
};

/// Deleting a verified payload keeps the anchor addressable.
pub proof fn lemma_del_replay_valid(rows: Seq<Seq<char>>, cx: int, cy: int, s: Seq<char>)
    requires
        valid_anchor(rows, cx, cy),
        match_spec(rows, cx, cy, s),
    ensures
        valid_anchor(del_replay(rows, cx, cy, s.len()), cx, cy),
    decreases s.len(),
{
    if s.len() > 0 {
        lemma_match_step_del(rows, cx, cy, s);
        lemma_del_replay_valid(del_step(rows, cx, cy), cx, cy, s.drop_first());
    }
}

/// Undo cancels apply: whenever applying an edit changes the line contents,
/// applying the structurally inverse edit to the result changes them back,
/// and it does report a change.
pub proof fn lemma_unperform_cancels_apply(rows: Seq<Seq<char>>, e: EditM)
    requires
        apply_model(rows, e).1,
    ensures
        apply_model(apply_model(rows, e).0, edit_inverse(e)) == (rows, true),
{
    match e {
        EditM::Insert((cx, cy), s) => {
            let rows2 = replay_ins(rows, cx, cy, s);
            lemma_replay_ins_valid(rows, cx, cy, s);
            lemma_match_after_ins(rows, cx, cy, s);
            lemma_del_after_ins(rows, cx, cy, s);
            assert(apply_model(rows2, EditM::Remove((cx, cy), s))
                == (del_replay(rows2, cx, cy, s.len()), true));
        }
        EditM::Remove((cx, cy), s) => {
            let rows2 = del_replay(rows, cx, cy, s.len());
            lemma_del_replay_valid(rows, cx, cy, s);
            lemma_ins_after_del(rows, cx, cy, s);
        }
    }
}

/// Undo cancels apply, stated of buffer states: when applying an edit
/// turned the contents of one state into a second, and reverse-applying it
/// turned those into a third, the third state is weakly isomorphic to the
/// first — same rows and same file name, cursor and dirty bookkeeping
/// aside. The applier's contracts leave the file name untouched, so the
/// file-name premises hold of every run of it.
pub proof fn lemma_unperform_restores_weak_iso(
    s1: EditBufferState,
    s2: EditBufferState,
    s3: EditBufferState,
    e: EditM,
)
    requires
        apply_model(buf_rows(s1), e).1,
        buf_rows(s2) == apply_model(buf_rows(s1), e).0,
        buf_rows(s3) == apply_model(buf_rows(s2), edit_inverse(e)).0,
        fname_view(s2) == fname_view(s1),
        fname_view(s3) == fname_view(s2),
    ensures
        weak_iso(s3, s1),
        apply_model(buf_rows(s2), edit_inverse(e)).1,
{
    lemma_unperform_cancels_apply(buf_rows(s1), e);
}

/// Inserting a payload at the origin of an empty single-row buffer and
/// then removing the same payload there restores the empty row.
pub proof fn lemma_inverse_pair_cancels_on_empty(s: Seq<char>)
    ensures
        ({
            let rows0 = seq![Seq::<char>::empty()];
            let after_ins = apply_model(rows0, EditM::Insert((0, 0), s)).0;
            apply_model(after_ins, EditM::Remove((0, 0), s)).0 == rows0
        }),
{
    let rows0 = seq![Seq::<char>::empty()];
    assert(valid_anchor(rows0, 0, 0));
    if s.len() > 0 {
        lemma_unperform_cancels_apply(rows0, EditM::Insert((0, 0), s));
    }
}

/// A buffer model whose history has not yet recorded anything.
pub open spec fn init_model(rows: Seq<Seq<char>>) -> EbModel {
    EbModel { rows, edits: Seq::empty(), current: None }
}

/// The model after performing a sequence of edits in order.
pub open spec fn perform_all(m: EbModel, es: Seq<EditM>) -> EbModel
    decreases es.len(),
{
    if es.len() == 0 {
        m
    } else {
        perform_all(perform_model(m, es.first()).0, es.drop_first())
    }
}

/// The line contents after replaying a log of edits from `rows0`, each
/// through the validating applier.
pub open spec fn replay_edits(rows0: Seq<Seq<char>>, edits: Seq<EditM>) -> Seq<Seq<char>>
    decreases edits.len(),
{
    if edits.len() == 0 {
        rows0
    } else {
        apply_model(replay_edits(rows0, edits.drop_last()), edits.last()).0
    }
}

/// Every logged edit changed content when applied to the state its
/// predecessors produced.
pub open spec fn chain_ok(rows0: Seq<Seq<char>>, edits: Seq<EditM>) -> bool {
    forall|k: int| 0 <= k < edits.len()
        ==> (#[trigger] apply_model(replay_edits(rows0, edits.take(k)), edits[k])).1
}

/// The history is coherent with a base state: every entry records a real
/// change, and the cursor position determines the live contents as the
/// replay of the entries up to it.
pub open spec fn coherent(rows0: Seq<Seq<char>>, m: EbModel) -> bool {
    &&& chain_ok(rows0, m.edits)
    &&& match m.current {
        None => m.rows == rows0,
        Some(i) => 0 <= i < m.edits.len()
            && m.rows == replay_edits(rows0, m.edits.take(i + 1)),
    }
}

/// The cursor sits at the top of the log.
pub open spec fn at_top(m: EbModel) -> bool {
    m.current == if m.edits.len() == 0 { None::<int> } else { Some(m.edits.len() - 1) }
}

/// A prefix of a coherent log is itself coherent.
proof fn lemma_chain_ok_prefix(rows0: Seq<Seq<char>>, edits: Seq<EditM>, n: int)
    requires
        chain_ok(rows0, edits),
        0 <= n <= edits.len(),
    ensures
        chain_ok(rows0, edits.take(n)),
{
    assert forall|k: int| 0 <= k < n
        implies (#[trigger] apply_model(replay_edits(rows0, edits.take(n).take(k)),
            edits.take(n)[k])).1 by {
        assert(edits.take(n).take(k) =~= edits.take(k));
    }
}

/// Appending an entry that changes content keeps a log coherent.
proof fn lemma_chain_ok_push(rows0: Seq<Seq<char>>, edits: Seq<EditM>, e: EditM)
    requires
        chain_ok(rows0, edits),
        apply_model(replay_edits(rows0, edits), e).1,
    ensures
        chain_ok(rows0, edits.push(e)),
        replay_edits(rows0, edits.push(e)) == apply_model(replay_edits(rows0, edits), e).0,
{
    assert(edits.push(e).drop_last() =~= edits);
    assert(edits.push(e).last() == e);
    assert forall|k: int| 0 <= k < edits.push(e).len()
        implies (#[trigger] apply_model(replay_edits(rows0, edits.push(e).take(k)),
            edits.push(e)[k])).1 by {
        if k < edits.len() {
            assert(edits.push(e).take(k) =~= edits.take(k));
            assert(edits.push(e)[k] == edits[k]);
        } else {
            assert(edits.push(e).take(k) =~= edits);
        }
    }
}

/// Performing an edit preserves coherence, and keeps the cursor at the top
/// when it was there.
pub proof fn lemma_perform_step(rows0: Seq<Seq<char>>, m: EbModel, e: EditM)
    requires
        coherent(rows0, m),
        at_top(m),
    ensures
        coherent(rows0, perform_model(m, e).0),
        at_top(perform_model(m, e).0),
{
    let applied = apply_model(m.rows, e);
    if applied.1 {
        let nidx = m_next_index(m);
        if nidx < m.edits.len() && m.edits[nidx] == e {
            // with the cursor at the top there is no redo entry to coalesce
            assert(false);
        } else {
            let kept = match m_corrected(m) {
                Some(i) => m.edits.take(i + 1),
                None => m.edits,
            };
            match m.current {
                None => {
                    assert(kept == m.edits);
                    assert(replay_edits(rows0, kept) == rows0);
                }
                Some(i) => {
                    assert(kept =~= m.edits);
                    lemma_chain_ok_prefix(rows0, m.edits, i + 1);
                }
            }
            assert(replay_edits(rows0, kept) == m.rows);
            lemma_chain_ok_push(rows0, kept, e);
            let edits2 = kept.push(e);
            assert(edits2.take(edits2.len() as int) =~= edits2);
        }
    }
}

/// Undoing preserves coherence; it reports a change exactly when some
/// entry is current, and then only steps the cursor back.
pub proof fn lemma_undo_step(rows0: Seq<Seq<char>>, m: EbModel)
    requires
        coherent(rows0, m),
    ensures
        coherent(rows0, undo_model(m).0),
        undo_model(m).0.edits == m.edits,
        undo_model(m).1 == (m_corrected(m) is Some),
{
    match m_corrected(m) {
        None => {}
        Some(i) => {
            // the cursor is inside the log, so it is already corrected
            assert(m.current == Some(i));
            let e = m.edits[i];
            lemma_chain_ok_prefix(rows0, m.edits, i + 1);
            assert(m.edits.take(i + 1).drop_last() =~= m.edits.take(i));
            assert(m.edits.take(i + 1).last() == e);
            assert(apply_model(replay_edits(rows0, m.edits.take(i)), e).1);
            assert(m.rows == apply_model(replay_edits(rows0, m.edits.take(i)), e).0);
            lemma_unperform_cancels_apply(replay_edits(rows0, m.edits.take(i)), e);
            assert(apply_model(m.rows, edit_inverse(e))
                == (replay_edits(rows0, m.edits.take(i)), true));
            if i == 0 {
                assert(m.edits.take(0) =~= Seq::<EditM>::empty());
            }
        }
    }
}

/// Redoing preserves coherence; under coherence a redo never purges an
/// entry, and it reports a change exactly when an entry lies after the
/// cursor.
pub proof fn lemma_redo_step(rows0: Seq<Seq<char>>, m: EbModel)
    requires
        coherent(rows0, m),
    ensures
        coherent(rows0, redo_model(m).0),
        redo_model(m).0.edits == m.edits,
        redo_model(m).1 == (m_next_index(m) < m.edits.len()),
    decreases 0int,
{
    let nidx = m_next_index(m);
    if nidx < m.edits.len() {
        let e = m.edits[nidx];
        lemma_chain_ok_prefix(rows0, m.edits, nidx);
        match m.current {
            None => {
                assert(m.edits.take(0) =~= Seq::<EditM>::empty());
            }
            Some(i) => {}
        }
        assert(replay_edits(rows0, m.edits.take(nidx)) == m.rows);
        assert(apply_model(m.rows, e).1);
        assert(m.edits.take(nidx + 1).drop_last() =~= m.edits.take(nidx));
        assert(m.edits.take(nidx + 1).last() == e);
    }
}

/// Performing a whole sequence from a coherent state stays coherent and at
/// the top.
pub proof fn lemma_perform_all(rows0: Seq<Seq<char>>, m: EbModel, es: Seq<EditM>)
    requires
        coherent(rows0, m),
        at_top(m),
    ensures
        coherent(rows0, perform_all(m, es)),
        at_top(perform_all(m, es)),
    decreases es.len(),
{
    if es.len() > 0 {
        lemma_perform_step(rows0, m, es.first());
        lemma_perform_all(rows0, perform_model(m, es.first()).0, es.drop_first());
    }
}

/// Undoing a coherent buffer until nothing is left to undo restores the
/// base contents, with the log intact.
pub proof fn lemma_drain_undo_restores(rows0: Seq<Seq<char>>, m: EbModel)
    requires
        coherent(rows0, m),
    ensures
        drain_undo(m).rows == rows0,
        drain_undo(m).edits == m.edits,
        drain_undo(m).current is None,
    decreases undo_measure(m),
{
    lemma_undo_step(rows0, m);
    lemma_undo_measure(m);
    if undo_model(m).1 {
        lemma_drain_undo_restores(rows0, undo_model(m).0);
    }
}

/// Redoing a coherent buffer until nothing is left to redo replays the
/// whole log, with the log intact.
pub proof fn lemma_drain_redo_completes(rows0: Seq<Seq<char>>, m: EbModel)
    requires
        coherent(rows0, m),
    ensures
        drain_redo(m).rows == replay_edits(rows0, m.edits),
        drain_redo(m).edits == m.edits,
        coherent(rows0, drain_redo(m)),
    decreases crate::engine::redo_measure(m),
{
    lemma_redo_step(rows0, m);
    lemma_redo_measure(m);
    if redo_model(m).1 {
        lemma_drain_redo_completes(rows0, redo_model(m).0);
    } else {
        let m2 = redo_model(m).0;
        match m.current {
            None => {
                if m.edits.len() > 0 {
                    // nothing after the cursor means the cursor covers the log
                    assert(m_next_index(m) >= m.edits.len());
                }
                assert(m.edits.take(m.edits.len() as int) =~= m.edits);
                assert(m2.rows == replay_edits(rows0, m.edits));
            }
            Some(i) => {
                assert(m.edits.take(m.edits.len() as int) =~= m.edits);
            }
        }
    }
}

/// Full replay idempotence, one direction: perform a sequence of edits on
/// a buffer with an empty history, move to the latest state, then undo
/// until nothing changes — the line contents are the pre-edit contents
/// again.
pub proof fn lemma_replay_then_undo_all(rows0: Seq<Seq<char>>, es: Seq<EditM>)
    ensures
        drain_undo(drain_redo(perform_all(init_model(rows0), es))).rows == rows0,
{
    let m = perform_all(init_model(rows0), es);
    assert(coherent(rows0, init_model(rows0)));
    lemma_perform_all(rows0, init_model(rows0), es);
    lemma_drain_redo_completes(rows0, m);
    lemma_drain_undo_restores(rows0, drain_redo(m));
}

/// Full replay idempotence, the other direction: perform a sequence of
/// edits on a buffer with an empty history, undo everything, then redo
/// until nothing changes — the line contents are the post-edit contents
/// again.
pub proof fn lemma_rewind_then_redo_all(rows0: Seq<Seq<char>>, es: Seq<EditM>)
    ensures
        drain_redo(drain_undo(perform_all(init_model(rows0), es))).rows
            == perform_all(init_model(rows0), es).rows,
{
    let m = perform_all(init_model(rows0), es);
    assert(coherent(rows0, init_model(rows0)));
    lemma_perform_all(rows0, init_model(rows0), es);
    lemma_drain_undo_restores(rows0, m);
    let back = drain_undo(m);
    assert(coherent(rows0, back));
    lemma_drain_redo_completes(rows0, back);
    // with the cursor at the top, the live contents are the full replay
    match m.current {
        None => {}
        Some(i) => {
            assert(m.edits.take(i + 1) =~= m.edits);
        }
    }
}

} // verus!
