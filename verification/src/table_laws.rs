//! The laws of the undo/redo engine, stated over the model transitions
//! that the executable operations are proved to implement.

use vstd::prelude::*;

use crate::table::GridV;
use crate::table::CellWriteV;
use crate::table::ModelV;
use crate::table::capture;
use crate::table::inv;
use crate::table::lemma_commit_batch_preserves_inv;
use crate::table::lemma_redo_preserves_inv;
use crate::table::lemma_set_cell_preserves_inv;
use crate::table::lemma_undo_preserves_inv;
use crate::table::spec_commit_batch;
use crate::table::spec_redo;
use crate::table::spec_set_cell;
use crate::table::spec_undo;
use crate::table::write_in_bounds;
use crate::table::writes_in_bounds;

verus! {

/// One recorded user edit: a single cell change, or a batch committed as
/// one unit.
pub enum EditOp {
    Single(CellWriteV),
    Batch(Seq<CellWriteV>),
}

/// Whether an edit lands inside the grid and records one undo step: a
/// batch must carry at least one pair to do so.
pub open spec fn op_in_bounds(op: EditOp, rows: nat, cols: nat) -> bool {
    match op {
        EditOp::Single(w) => write_in_bounds(w, rows, cols),
        EditOp::Batch(ps) => ps.len() > 0 && writes_in_bounds(ps, rows, cols),
    }
}

/// Whether every edit of a sequence does.
pub open spec fn ops_in_bounds(ops: Seq<EditOp>, rows: nat, cols: nat) -> bool {
    forall|i: int| 0 <= i < ops.len() ==> op_in_bounds(#[trigger] ops[i], rows, cols)
}

/// One edit applied to the model.
pub open spec fn apply_op(m: ModelV, op: EditOp) -> ModelV {
    match op {
        EditOp::Single(w) => spec_set_cell(m, w),
        EditOp::Batch(ps) => spec_commit_batch(m, ps),
    }
}

/// A sequence of edits applied left to right.
pub open spec fn run_ops(m: ModelV, ops: Seq<EditOp>) -> ModelV
    decreases ops.len(),
{
    if ops.len() == 0 {
        m
    } else {
        apply_op(run_ops(m, ops.drop_last()), ops.last())
    }
}

/// `undo` applied `n` times.
pub open spec fn undo_n(m: ModelV, n: nat) -> ModelV
    decreases n,
{
    if n == 0 {
        m
    } else {
        spec_undo(undo_n(m, (n - 1) as nat))
    }
}

/// `redo` applied `n` times.
pub open spec fn redo_n(m: ModelV, n: nat) -> ModelV
    decreases n,
{
    if n == 0 {
        m
    } else {
        spec_redo(redo_n(m, (n - 1) as nat))
    }
}

/// The grids that `n` undos pass through, in the order their redo entries
/// are pushed: the live grid first, then ever earlier recorded grids.
pub open spec fn rewind_grids(m: ModelV, n: nat) -> Seq<GridV> {
    Seq::new(
        n,
        |k: int|
            if k == 0 {
                m.grid
            } else {
                m.hist[m.hist.len() - k]
            },
    )
}

/// A new edit — single or batch — leaves nothing to redo: the redo stack
/// is cleared, so the undone steps it superseded cannot be replayed.
pub proof fn lemma_new_edit_clears_redo(m: ModelV, op: EditOp)
    requires
        !m.replay_lock,
        !m.batch_lock,
        match op {
            EditOp::Single(_) => true,
            EditOp::Batch(ps) => ps.len() > 0,
        },
    ensures
        apply_op(m, op).redo.len() == 0,
{
}

/// A batch of any number of pairs is one undo step: exactly one edit —
/// recording the pre-batch values of all its pairs — joins the undo
/// stack, not one per pair.
pub proof fn lemma_commit_batch_is_one_edit(m: ModelV, ps: Seq<CellWriteV>)
    requires
        ps.len() > 0,
    ensures
        spec_commit_batch(m, ps).undo == m.undo.push(capture(m.baseline, ps)),
        spec_commit_batch(m, ps).undo.len() == m.undo.len() + 1,
{
}

/// What a run of edits does to the history: the invariant is kept, the
/// dimensions stand, one undo entry and one recorded grid are added per
/// edit on top of the old ones, the first added grid is the grid before
/// the first edit, and the redo stack ends empty.
pub proof fn lemma_run_ops(m: ModelV, ops: Seq<EditOp>)
    requires
        inv(m),
        ops_in_bounds(ops, m.rows(), m.cols()),
    ensures
        inv(run_ops(m, ops)),
        run_ops(m, ops).rows() == m.rows(),
        run_ops(m, ops).cols() == m.cols(),
        run_ops(m, ops).undo.len() == m.undo.len() + ops.len(),
        run_ops(m, ops).hist.len() == m.hist.len() + ops.len(),
        run_ops(m, ops).hist.take(m.hist.len() as int) == m.hist,
        ops.len() > 0 ==> run_ops(m, ops).hist[m.hist.len() as int] == m.grid,
        ops.len() > 0 ==> run_ops(m, ops).redo.len() == 0,
        ops.len() == 0 ==> run_ops(m, ops) == m,
    decreases ops.len(),
{
    if ops.len() > 0 {
        let prefix = ops.drop_last();
        assert(ops_in_bounds(prefix, m.rows(), m.cols()));
        assert(op_in_bounds(ops.last(), m.rows(), m.cols()));
        lemma_run_ops(m, prefix);
        let r0 = run_ops(m, prefix);
        let r1 = run_ops(m, ops);
        match ops.last() {
            EditOp::Single(w) => {
                lemma_set_cell_preserves_inv(r0, w);
            },
            EditOp::Batch(ps) => {
                lemma_commit_batch_preserves_inv(r0, ps);
            },
        }
        assert(r1.hist == r0.hist.push(r0.grid));
        assert(r1.hist.take(m.hist.len() as int) =~= m.hist);
        if prefix.len() == 0 {
            assert(r0 == m);
            assert(r1.hist[m.hist.len() as int] == m.grid);
        } else {
            assert(r1.hist[m.hist.len() as int] == r0.hist[m.hist.len() as int]);
            assert(r0.hist[m.hist.len() as int] == m.grid);
        }
    }
}

/// What `n` undos do: they pop the top `n` edits and their recorded
/// grids, land on the grid recorded before the oldest popped edit, and
/// push one redo entry and one rewound grid per step.
pub proof fn lemma_undo_n(m: ModelV, n: nat)
    requires
        inv(m),
        n <= m.undo.len(),
    ensures
        inv(undo_n(m, n)),
        undo_n(m, n).rows() == m.rows(),
        undo_n(m, n).cols() == m.cols(),
        undo_n(m, n).undo == m.undo.take(m.undo.len() - n),
        undo_n(m, n).hist == m.hist.take(m.undo.len() - n),
        undo_n(m, n).grid == (if n == 0 {
            m.grid
        } else {
            m.hist[m.undo.len() - n]
        }),
        undo_n(m, n).redo.len() == m.redo.len() + n,
        undo_n(m, n).rhist == m.rhist + rewind_grids(m, n),
    decreases n,
{
    if n == 0 {
        assert(undo_n(m, n) == m);
        assert(m.undo.take(m.undo.len() as int) =~= m.undo);
        assert(m.hist.take(m.undo.len() as int) =~= m.hist);
        assert(m.rhist + rewind_grids(m, 0) =~= m.rhist);
    } else {
        lemma_undo_n(m, (n - 1) as nat);
        let u = undo_n(m, (n - 1) as nat);
        lemma_undo_preserves_inv(u);
        let u1 = undo_n(m, n);
        assert(u1 == spec_undo(u));
        assert(u.undo.len() == m.undo.len() - (n - 1));
        assert(u.undo.len() > 0);
        assert(u1.grid == u.hist.last());
        assert(u.hist.last() == m.hist.take(m.undo.len() - (n - 1))[m.undo.len() - n]);
        assert(u1.grid == m.hist[m.undo.len() - n]);
        assert(u1.undo =~= m.undo.take(m.undo.len() - n));
        assert(u1.hist =~= m.hist.take(m.undo.len() - n));
        assert(u1.rhist == u.rhist.push(u.grid));
        assert forall|k: int|
            0 <= k < n implies (m.rhist + rewind_grids(m, n))[m.rhist.len() + k] == #[trigger] u1.rhist[m.rhist.len()
            + k] by {
            assert(rewind_grids(m, n)[k] == (if k == 0 {
                m.grid
            } else {
                m.hist[m.hist.len() - k]
            }));
            if k < n - 1 {
                assert(u1.rhist[m.rhist.len() + k] == u.rhist[m.rhist.len() + k]);
                assert(u.rhist[m.rhist.len() + k] == rewind_grids(m, (n - 1) as nat)[k]);
            } else {
                assert(u1.rhist[m.rhist.len() + k] == u.grid);
            }
        }
        assert(u1.rhist =~= m.rhist + rewind_grids(m, n));
    }
}

/// What `n` redos do: they pop the top `n` redo entries and land back on
/// the grid the corresponding undo left.
pub proof fn lemma_redo_n(m: ModelV, n: nat)
    requires
        inv(m),
        n <= m.redo.len(),
    ensures
        inv(redo_n(m, n)),
        redo_n(m, n).redo == m.redo.take(m.redo.len() - n),
        redo_n(m, n).rhist == m.rhist.take(m.redo.len() - n),
        redo_n(m, n).grid == (if n == 0 {
            m.grid
        } else {
            m.rhist[m.redo.len() - n]
        }),
    decreases n,
{
    if n == 0 {
        assert(m.redo.take(m.redo.len() as int) =~= m.redo);
        assert(m.rhist.take(m.redo.len() as int) =~= m.rhist);
    } else {
        lemma_redo_n(m, (n - 1) as nat);
        let u = redo_n(m, (n - 1) as nat);
        lemma_redo_preserves_inv(u);
        let u1 = redo_n(m, n);
        assert(u1 == spec_redo(u));
        assert(u.redo.len() == m.redo.len() - (n - 1));
        assert(u.redo.len() > 0);
        assert(u1.grid == u.rhist.last());
        assert(u.rhist.last() == m.rhist.take(m.redo.len() - (n - 1))[m.redo.len() - n]);
        assert(u1.grid == m.rhist[m.redo.len() - n]);
        assert(u1.redo =~= m.redo.take(m.redo.len() - n));
        assert(u1.rhist =~= m.rhist.take(m.redo.len() - n));
    }
}

/// Undoing a whole session restores the starting grid: after any sequence
/// of recorded edits followed by as many undos, the grid is bit for bit
/// the grid before the first edit, and the undo stack is empty.
pub proof fn lemma_edits_then_undo_all(m: ModelV, ops: Seq<EditOp>)
    requires
        inv(m),
        m.undo.len() == 0,
        ops_in_bounds(ops, m.rows(), m.cols()),
    ensures
        undo_n(run_ops(m, ops), ops.len()).grid == m.grid,
        undo_n(run_ops(m, ops), ops.len()).undo.len() == 0,
{
    lemma_run_ops(m, ops);
    let r = run_ops(m, ops);
    lemma_undo_n(r, ops.len());
    if ops.len() > 0 {
        assert(undo_n(r, ops.len()).grid == r.hist[0]);
        assert(r.hist[0] == m.grid);
    }
}

/// Redoing everything that was just undone returns to where the edits
/// left the grid: after the edits, as many undos, then as many redos, the
/// grid equals its state after the last edit.
pub proof fn lemma_undo_all_then_redo_all(m: ModelV, ops: Seq<EditOp>)
    requires
        inv(m),
        m.undo.len() == 0,
        ops_in_bounds(ops, m.rows(), m.cols()),
    ensures
        redo_n(undo_n(run_ops(m, ops), ops.len()), ops.len()).grid == run_ops(m, ops).grid,
{
    let n = ops.len();
    lemma_run_ops(m, ops);
    let r = run_ops(m, ops);
    lemma_undo_n(r, n);
    let u = undo_n(r, n);
    if n > 0 {
        assert(r.redo.len() == 0);
        assert(r.rhist.len() == 0);
        assert(u.redo.len() == n);
        assert(u.rhist =~= rewind_grids(r, n));
        lemma_redo_n(u, n);
        assert(redo_n(u, n).grid == u.rhist[0]);
        assert(u.rhist[0] == rewind_grids(r, n)[0]);
        assert(rewind_grids(r, n)[0] == r.grid);
    }
}

} // verus!
