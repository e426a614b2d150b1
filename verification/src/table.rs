//! The table-edit model and its undo/redo engine.
//!
//! A live grid of cell values is edited through `set_cell` and
//! `commit_batch`; every committed mutation is recorded as one reversible
//! `TableEdit` holding the previous values, diffed against a shadow
//! baseline grid. Undo and redo move those records between two stacks and
//! restore the exact prior cell values; a new edit cuts the redo history
//! off (linear history, no branching).

use vstd::prelude::*;

verus! {

/// The mathematical shape of a grid: rows of rows of characters.
pub type GridV = Seq<Seq<Seq<char>>>;

/// One cell assignment: a coordinate and the value written there.
#[derive(Clone, Debug, PartialEq, Eq)]
pub struct CellWrite {
    pub row: usize,
    pub col: usize,
    pub value: String,
}

/// The spec-level shape of one cell assignment.
pub struct CellWriteV {
    pub row: int,
    pub col: int,
    pub value: Seq<char>,
}

impl View for CellWrite {
    type V = CellWriteV;

    open spec fn view(&self) -> CellWriteV {
        CellWriteV { row: self.row as int, col: self.col as int, value: self.value@ }
    }
}

impl DeepView for CellWrite {
    type V = CellWriteV;

    open spec fn deep_view(&self) -> CellWriteV {
        self.view()
    }
}

/// One undoable unit: the ordered cell writes that restore the state
/// before the edit it records.
#[derive(Clone, Debug, PartialEq, Eq)]
pub struct TableEdit {
    pub writes: Vec<CellWrite>,
}

impl View for TableEdit {
    type V = Seq<CellWriteV>;

    open spec fn view(&self) -> Seq<CellWriteV> {
        self.writes.deep_view()
    }
}

impl DeepView for TableEdit {
    type V = Seq<CellWriteV>;

    open spec fn deep_view(&self) -> Seq<CellWriteV> {
        self.view()
    }
}

/// Whether every row of the grid has exactly `cols` cells.
pub open spec fn rect(g: GridV, cols: nat) -> bool {
    forall|i: int| 0 <= i < g.len() ==> (#[trigger] g[i]).len() == cols
}

/// Whether one write lands inside a `rows` by `cols` grid.
pub open spec fn write_in_bounds(w: CellWriteV, rows: nat, cols: nat) -> bool {
    0 <= w.row < rows && 0 <= w.col < cols
}

/// Whether every write of a sequence lands inside the grid.
pub open spec fn writes_in_bounds(ps: Seq<CellWriteV>, rows: nat, cols: nat) -> bool {
    forall|i: int| 0 <= i < ps.len() ==> write_in_bounds(#[trigger] ps[i], rows, cols)
}

/// One write applied to a grid.
pub open spec fn grid_write(g: GridV, w: CellWriteV) -> GridV {
    g.update(w.row, g[w.row].update(w.col, w.value))
}

/// A sequence of writes applied left to right.
pub open spec fn apply_writes(g: GridV, ps: Seq<CellWriteV>) -> GridV
    decreases ps.len(),
{
    if ps.len() == 0 {
        g
    } else {
        grid_write(apply_writes(g, ps.drop_last()), ps.last())
    }
}

/// The writes that record a grid's current values at the coordinates of
/// `ps`: applying them afterwards restores those values.
pub open spec fn capture(g: GridV, ps: Seq<CellWriteV>) -> Seq<CellWriteV> {
    Seq::new(ps.len(), |i: int| CellWriteV { row: ps[i].row, col: ps[i].col, value: g[ps[i].row][ps[i].col] })
}

/// The value the last write to `(r, c)` in `ps` carries, if any write
/// touches that coordinate.
pub open spec fn last_write(ps: Seq<CellWriteV>, r: int, c: int) -> Option<Seq<char>>
    decreases ps.len(),
{
    if ps.len() == 0 {
        None
    } else if ps.last().row == r && ps.last().col == c {
        Some(ps.last().value)
    } else {
        last_write(ps.drop_last(), r, c)
    }
}

/// Applying writes keeps the grid's dimensions.
pub proof fn lemma_apply_writes_dims(g: GridV, ps: Seq<CellWriteV>, cols: nat)
    requires
        rect(g, cols),
        writes_in_bounds(ps, g.len(), cols),
    ensures
        apply_writes(g, ps).len() == g.len(),
        rect(apply_writes(g, ps), cols),
    decreases ps.len(),
{
    if ps.len() > 0 {
        assert(writes_in_bounds(ps.drop_last(), g.len(), cols));
        lemma_apply_writes_dims(g, ps.drop_last(), cols);
        assert(write_in_bounds(ps[ps.len() - 1], g.len(), cols));
    }
}

/// What each cell of the result of `apply_writes` holds: the value of the
/// last write that touched it, or the original value where none did.
pub proof fn lemma_apply_writes_cells(g: GridV, ps: Seq<CellWriteV>, cols: nat, r: int, c: int)
    requires
        rect(g, cols),
        writes_in_bounds(ps, g.len(), cols),
        0 <= r < g.len(),
        0 <= c < cols,
    ensures
        apply_writes(g, ps)[r][c] == match last_write(ps, r, c) {
            Some(v) => v,
            None => g[r][c],
        },
    decreases ps.len(),
{
    if ps.len() > 0 {
        assert(writes_in_bounds(ps.drop_last(), g.len(), cols));
        lemma_apply_writes_cells(g, ps.drop_last(), cols, r, c);
        lemma_apply_writes_dims(g, ps.drop_last(), cols);
        assert(write_in_bounds(ps[ps.len() - 1], g.len(), cols));
    }
}

/// In a captured record every write to `(r, c)` carries the grid's own
/// value there, and the record touches exactly the coordinates `ps` does.
pub proof fn lemma_capture_last_write(g: GridV, ps: Seq<CellWriteV>, r: int, c: int)
    ensures
        last_write(capture(g, ps), r, c) is Some <==> last_write(ps, r, c) is Some,
        last_write(ps, r, c) is Some ==> last_write(capture(g, ps), r, c) == Some(g[r][c]),
    decreases ps.len(),
{
    if ps.len() > 0 {
        assert(capture(g, ps).drop_last() =~= capture(g, ps.drop_last()));
        lemma_capture_last_write(g, ps.drop_last(), r, c);
        assert(capture(g, ps).last() == CellWriteV {
            row: ps.last().row,
            col: ps.last().col,
            value: g[ps.last().row][ps.last().col],
        });
    }
}

/// Marking one cell as visually modified.
pub open spec fn mark_cell(md: Seq<Seq<bool>>, r: int, c: int) -> Seq<Seq<bool>> {
    md.update(r, md[r].update(c, true))
}

/// Marking every cell a sequence of writes touches, left to right.
pub open spec fn mark_writes(md: Seq<Seq<bool>>, ps: Seq<CellWriteV>) -> Seq<Seq<bool>>
    decreases ps.len(),
{
    if ps.len() == 0 {
        md
    } else {
        mark_cell(mark_writes(md, ps.drop_last()), ps.last().row, ps.last().col)
    }
}

/// Marking cells keeps the flag grid's dimensions.
pub proof fn lemma_mark_writes_dims(md: Seq<Seq<bool>>, ps: Seq<CellWriteV>, cols: nat)
    requires
        forall|i: int| 0 <= i < md.len() ==> (#[trigger] md[i]).len() == cols,
        writes_in_bounds(ps, md.len(), cols),
    ensures
        mark_writes(md, ps).len() == md.len(),
        forall|i: int|
            0 <= i < md.len() ==> (#[trigger] mark_writes(md, ps)[i]).len() == cols,
    decreases ps.len(),
{
    if ps.len() > 0 {
        assert(writes_in_bounds(ps.drop_last(), md.len(), cols));
        lemma_mark_writes_dims(md, ps.drop_last(), cols);
        assert(write_in_bounds(ps[ps.len() - 1], md.len(), cols));
    }
}

/// The all-clear modified flags for a grid of this shape.
pub open spec fn fresh_marks(g: GridV) -> Seq<Seq<bool>> {
    Seq::new(g.len(), |i: int| Seq::new(g[i].len(), |j: int| false))
}

/// Undoing what a record of previous values was captured for restores the
/// grid exactly: applying `ps` and then the capture of `ps` is a round
/// trip back to `g`.
pub proof fn lemma_apply_restore(g: GridV, ps: Seq<CellWriteV>, cols: nat)
    requires
        rect(g, cols),
        writes_in_bounds(ps, g.len(), cols),
    ensures
        apply_writes(apply_writes(g, ps), capture(g, ps)) == g,
{
    let g1 = apply_writes(g, ps);
    let cap = capture(g, ps);
    let g2 = apply_writes(g1, cap);
    lemma_apply_writes_dims(g, ps, cols);
    assert(writes_in_bounds(cap, g.len(), cols));
    lemma_apply_writes_dims(g1, cap, cols);
    assert forall|r: int| 0 <= r < g.len() implies g2[r] =~= g[r] by {
        assert forall|c: int| 0 <= c < cols implies g2[r][c] == g[r][c] by {
            lemma_apply_writes_cells(g, ps, cols, r, c);
            lemma_apply_writes_cells(g1, cap, cols, r, c);
            lemma_capture_last_write(g, ps, r, c);
        }
    }
    assert(g2 =~= g);
}

/// The mathematical model of the whole table-edit engine.
#[verifier::ext_equal]
pub struct ModelV {
    /// The live grid.
    pub grid: GridV,
    /// The shadow grid that previous values are diffed against.
    pub baseline: GridV,
    /// The per-cell "visually modified" flags.
    pub modified: Seq<Seq<bool>>,
    /// The undo stack, most recent edit last.
    pub undo: Seq<Seq<CellWriteV>>,
    /// The redo stack, most recently undone edit last.
    pub redo: Seq<Seq<CellWriteV>>,
    /// For each recorded edit, the grid as it stood just before it.
    pub hist: Seq<GridV>,
    /// For each undone edit, the grid its redo brings back.
    pub rhist: Seq<GridV>,
    /// Held while undo or redo replays values into the grid.
    pub replay_lock: bool,
    /// Held while a batch is being committed.
    pub batch_lock: bool,
}

impl ModelV {
    /// The number of rows.
    pub open spec fn rows(self) -> nat {
        self.grid.len()
    }

    /// The number of columns.
    pub open spec fn cols(self) -> nat {
        if self.grid.len() > 0 {
            self.grid[0].len()
        } else {
            0
        }
    }

    /// The grid that undoing edit `i` starts from: the one the next
    /// recorded edit was applied to, or the live grid for the top entry.
    pub open spec fn undo_next(self, i: int) -> GridV {
        if i + 1 == self.undo.len() {
            self.grid
        } else {
            self.hist[i + 1]
        }
    }

    /// The grid that redoing entry `j` starts from.
    pub open spec fn redo_next(self, j: int) -> GridV {
        if j + 1 == self.redo.len() {
            self.grid
        } else {
            self.rhist[j + 1]
        }
    }
}

/// The grids all agree in shape.
pub open spec fn dims_ok(m: ModelV) -> bool {
    &&& rect(m.grid, m.cols())
    &&& m.baseline.len() == m.rows()
    &&& rect(m.baseline, m.cols())
    &&& m.modified.len() == m.rows()
    &&& forall|i: int| 0 <= i < m.modified.len() ==> (#[trigger] m.modified[i]).len() == m.cols()
}

/// The engine's invariant between operations: the baseline mirrors the
/// grid, no lock is held, and each stack entry provably rewinds (or
/// replays) the grid one step along its recorded history.
pub open spec fn inv(m: ModelV) -> bool {
    &&& dims_ok(m)
    &&& m.baseline == m.grid
    &&& !m.replay_lock
    &&& !m.batch_lock
    &&& m.hist.len() == m.undo.len()
    &&& forall|i: int|
        0 <= i < m.undo.len() ==> writes_in_bounds(#[trigger] m.undo[i], m.rows(), m.cols())
    &&& forall|i: int|
        0 <= i < m.hist.len() ==> (#[trigger] m.hist[i]).len() == m.rows() && rect(
            m.hist[i],
            m.cols(),
        )
    &&& forall|i: int|
        0 <= i < m.undo.len() ==> apply_writes(m.undo_next(i), #[trigger] m.undo[i]) == m.hist[i]
    &&& m.rhist.len() == m.redo.len()
    &&& forall|j: int|
        0 <= j < m.redo.len() ==> writes_in_bounds(#[trigger] m.redo[j], m.rows(), m.cols())
    &&& forall|j: int|
        0 <= j < m.rhist.len() ==> (#[trigger] m.rhist[j]).len() == m.rows() && rect(
            m.rhist[j],
            m.cols(),
        )
    &&& forall|j: int|
        0 <= j < m.redo.len() ==> apply_writes(m.redo_next(j), #[trigger] m.redo[j]) == m.rhist[j]
}

/// What one `set_cell` call does to the model. Under the replay lock it is
/// the raw grid mutation alone; under the batch lock it also marks the
/// cell; otherwise it records a one-pair edit against the baseline, cuts
/// the redo history off, and refreshes the baseline.
pub open spec fn spec_set_cell(m: ModelV, w: CellWriteV) -> ModelV {
    if m.replay_lock {
        ModelV { grid: grid_write(m.grid, w), ..m }
    } else if m.batch_lock {
        ModelV {
            grid: grid_write(m.grid, w),
            modified: mark_cell(m.modified, w.row, w.col),
            ..m
        }
    } else {
        let prev = CellWriteV { row: w.row, col: w.col, value: m.baseline[w.row][w.col] };
        let g1 = grid_write(m.grid, w);
        ModelV {
            grid: g1,
            baseline: g1,
            modified: mark_cell(m.modified, w.row, w.col),
            undo: m.undo.push(seq![prev]),
            redo: Seq::empty(),
            hist: m.hist.push(m.grid),
            rhist: Seq::empty(),
            replay_lock: false,
            batch_lock: false,
        }
    }
}

/// What one `commit_batch` call does to the model: nothing for an empty
/// batch; otherwise all pairs are applied, their previous values are
/// captured against the one pre-batch baseline as a single edit, the redo
/// history is cut off, and the baseline is refreshed once.
pub open spec fn spec_commit_batch(m: ModelV, ps: Seq<CellWriteV>) -> ModelV {
    if ps.len() == 0 {
        m
    } else {
        let g1 = apply_writes(m.grid, ps);
        ModelV {
            grid: g1,
            baseline: g1,
            modified: mark_writes(m.modified, ps),
            undo: m.undo.push(capture(m.baseline, ps)),
            redo: Seq::empty(),
            hist: m.hist.push(m.grid),
            rhist: Seq::empty(),
            replay_lock: false,
            batch_lock: false,
        }
    }
}

/// What one `undo` call does to the model: nothing on an empty stack;
/// otherwise the top edit's previous values are replayed into the grid,
/// the values they supersede are captured onto the redo stack, and the
/// baseline is refreshed.
pub open spec fn spec_undo(m: ModelV) -> ModelV {
    if m.undo.len() == 0 {
        m
    } else {
        let e = m.undo.last();
        let g1 = apply_writes(m.grid, e);
        ModelV {
            grid: g1,
            baseline: g1,
            modified: m.modified,
            undo: m.undo.drop_last(),
            redo: m.redo.push(capture(m.grid, e)),
            hist: m.hist.drop_last(),
            rhist: m.rhist.push(m.grid),
            replay_lock: false,
            batch_lock: false,
        }
    }
}

/// What one `redo` call does to the model: nothing on an empty stack;
/// otherwise the most recently undone values are replayed back, and the
/// edit returns to the undo stack.
pub open spec fn spec_redo(m: ModelV) -> ModelV {
    if m.redo.len() == 0 {
        m
    } else {
        let e = m.redo.last();
        let g1 = apply_writes(m.grid, e);
        ModelV {
            grid: g1,
            baseline: g1,
            modified: m.modified,
            undo: m.undo.push(capture(m.grid, e)),
            redo: m.redo.drop_last(),
            hist: m.hist.push(m.grid),
            rhist: m.rhist.drop_last(),
            replay_lock: false,
            batch_lock: false,
        }
    }
}

/// Recording a single cell edit preserves the invariant.
pub proof fn lemma_set_cell_preserves_inv(m: ModelV, w: CellWriteV)
    requires
        inv(m),
        write_in_bounds(w, m.rows(), m.cols()),
    ensures
        inv(spec_set_cell(m, w)),
        spec_set_cell(m, w).rows() == m.rows(),
        spec_set_cell(m, w).cols() == m.cols(),
{
    let m2 = spec_set_cell(m, w);
    let prev = CellWriteV { row: w.row, col: w.col, value: m.baseline[w.row][w.col] };
    assert(seq![w].drop_last() =~= Seq::<CellWriteV>::empty());
    assert(writes_in_bounds(seq![w], m.rows(), m.cols()));
    lemma_apply_writes_dims(m.grid, seq![w], m.cols());
    assert(apply_writes(m.grid, seq![w].drop_last()) == m.grid);
    assert(seq![w].last() == w);
    assert(apply_writes(m.grid, seq![w]) == grid_write(m.grid, w));
    assert(m2.grid == grid_write(m.grid, w));
    assert(m2.rows() == m.rows());
    if m.rows() > 0 {
        assert(rect(m2.grid, m.cols()));
        assert(m2.grid[0].len() == m.cols());
    }
    assert(m2.cols() == m.cols());
    assert(capture(m.grid, seq![w]) =~= seq![prev]);
    lemma_apply_restore(m.grid, seq![w], m.cols());
    assert(apply_writes(m2.grid, seq![prev]) == m.grid);
    assert forall|i: int|
        0 <= i < m2.undo.len() implies apply_writes(m2.undo_next(i), #[trigger] m2.undo[i])
        == m2.hist[i] by {
        if i < m.undo.len() {
            assert(m2.undo[i] == m.undo[i]);
            assert(m2.undo_next(i) == m.undo_next(i));
            assert(apply_writes(m.undo_next(i), m.undo[i]) == m.hist[i]);
        } else {
            assert(m2.undo[i] == seq![prev]);
            assert(m2.undo_next(i) == m2.grid);
            assert(m2.hist[i] == m.grid);
        }
    }
}

/// Committing a non-empty batch preserves the invariant.
pub proof fn lemma_commit_batch_preserves_inv(m: ModelV, ps: Seq<CellWriteV>)
    requires
        inv(m),
        writes_in_bounds(ps, m.rows(), m.cols()),
    ensures
        inv(spec_commit_batch(m, ps)),
        spec_commit_batch(m, ps).rows() == m.rows(),
        spec_commit_batch(m, ps).cols() == m.cols(),
{
    if ps.len() > 0 {
        let m2 = spec_commit_batch(m, ps);
        lemma_apply_writes_dims(m.grid, ps, m.cols());
        assert(m2.rows() == m.rows());
        if m.rows() > 0 {
            assert(m2.grid[0].len() == m.cols());
        }
        assert(m2.cols() == m.cols());
        lemma_mark_writes_dims(m.modified, ps, m.cols());
        lemma_apply_restore(m.grid, ps, m.cols());
        assert(apply_writes(m2.grid, capture(m.grid, ps)) == m.grid);
        assert(writes_in_bounds(capture(m.baseline, ps), m.rows(), m.cols()));
        assert forall|i: int|
            0 <= i < m2.undo.len() implies apply_writes(m2.undo_next(i), #[trigger] m2.undo[i])
            == m2.hist[i] by {
            if i < m.undo.len() {
                assert(m2.undo[i] == m.undo[i]);
                assert(m2.undo_next(i) == m.undo_next(i));
                assert(apply_writes(m.undo_next(i), m.undo[i]) == m.hist[i]);
            } else {
                assert(m2.undo[i] == capture(m.baseline, ps));
                assert(m2.undo_next(i) == m2.grid);
                assert(m2.hist[i] == m.grid);
            }
        }
    }
}

/// Undoing preserves the invariant, and lands exactly on the grid
/// recorded before the edit being undone.
pub proof fn lemma_undo_preserves_inv(m: ModelV)
    requires
        inv(m),
    ensures
        inv(spec_undo(m)),
        spec_undo(m).rows() == m.rows(),
        spec_undo(m).cols() == m.cols(),
        m.undo.len() > 0 ==> spec_undo(m).grid == m.hist.last(),
{
    if m.undo.len() > 0 {
        let m2 = spec_undo(m);
        let e = m.undo.last();
        let last = m.undo.len() - 1;
        assert(writes_in_bounds(e, m.rows(), m.cols()));
        assert(m.undo_next(last) == m.grid);
        assert(apply_writes(m.grid, e) == m.hist[last]);
        assert(m2.grid == m.hist.last());
        assert(m2.rows() == m.rows());
        if m.rows() > 0 {
            assert(m2.grid[0].len() == m.cols());
        }
        assert(m2.cols() == m.cols());
        lemma_apply_restore(m.grid, e, m.cols());
        assert(apply_writes(m2.grid, capture(m.grid, e)) == m.grid);
        assert(writes_in_bounds(capture(m.grid, e), m.rows(), m.cols()));
        assert forall|i: int|
            0 <= i < m2.undo.len() implies apply_writes(m2.undo_next(i), #[trigger] m2.undo[i])
            == m2.hist[i] by {
            assert(m2.undo[i] == m.undo[i]);
            assert(apply_writes(m.undo_next(i), m.undo[i]) == m.hist[i]);
            if i + 1 == m2.undo.len() {
                assert(m2.undo_next(i) == m2.grid);
                assert(m.undo_next(i) == m.hist[i + 1]);
                assert(m2.grid == m.hist[last]);
            } else {
                assert(m2.undo_next(i) == m.undo_next(i));
            }
        }
        assert forall|j: int|
            0 <= j < m2.redo.len() implies apply_writes(m2.redo_next(j), #[trigger] m2.redo[j])
            == m2.rhist[j] by {
            if j < m.redo.len() {
                assert(m2.redo[j] == m.redo[j]);
                assert(apply_writes(m.redo_next(j), m.redo[j]) == m.rhist[j]);
                if j + 1 == m.redo.len() {
                    assert(m.redo_next(j) == m.grid);
                    assert(m2.redo_next(j) == m2.rhist[j + 1]);
                    assert(m2.rhist[j + 1] == m.grid);
                } else {
                    assert(m2.redo_next(j) == m.redo_next(j));
                }
            } else {
                assert(m2.redo[j] == capture(m.grid, e));
                assert(m2.redo_next(j) == m2.grid);
                assert(m2.rhist[j] == m.grid);
            }
        }
    }
}

/// Redoing preserves the invariant, and lands exactly on the grid the
/// corresponding undo left.
pub proof fn lemma_redo_preserves_inv(m: ModelV)
    requires
        inv(m),
    ensures
        inv(spec_redo(m)),
        spec_redo(m).rows() == m.rows(),
        spec_redo(m).cols() == m.cols(),
        m.redo.len() > 0 ==> spec_redo(m).grid == m.rhist.last(),
{
    if m.redo.len() > 0 {
        let m2 = spec_redo(m);
        let e = m.redo.last();
        let last = m.redo.len() - 1;
        assert(writes_in_bounds(e, m.rows(), m.cols()));
        assert(m.redo_next(last) == m.grid);
        assert(apply_writes(m.grid, e) == m.rhist[last]);
        assert(m2.grid == m.rhist.last());
        assert(m2.rows() == m.rows());
        if m.rows() > 0 {
            assert(m2.grid[0].len() == m.cols());
        }
        assert(m2.cols() == m.cols());
        lemma_apply_restore(m.grid, e, m.cols());
        assert(apply_writes(m2.grid, capture(m.grid, e)) == m.grid);
        assert(writes_in_bounds(capture(m.grid, e), m.rows(), m.cols()));
        assert forall|j: int|
            0 <= j < m2.redo.len() implies apply_writes(m2.redo_next(j), #[trigger] m2.redo[j])
            == m2.rhist[j] by {
            assert(m2.redo[j] == m.redo[j]);
            assert(apply_writes(m.redo_next(j), m.redo[j]) == m.rhist[j]);
            if j + 1 == m2.redo.len() {
                assert(m2.redo_next(j) == m2.grid);
                assert(m.redo_next(j) == m.rhist[j + 1]);
                assert(m2.grid == m.rhist[last]);
            } else {
                assert(m2.redo_next(j) == m.redo_next(j));
            }
        }
        assert forall|i: int|
            0 <= i < m2.undo.len() implies apply_writes(m2.undo_next(i), #[trigger] m2.undo[i])
            == m2.hist[i] by {
            if i < m.undo.len() {
                assert(m2.undo[i] == m.undo[i]);
                assert(apply_writes(m.undo_next(i), m.undo[i]) == m.hist[i]);
                if i + 1 == m.undo.len() {
                    assert(m.undo_next(i) == m.grid);
                    assert(m2.undo_next(i) == m2.hist[i + 1]);
                    assert(m2.hist[i + 1] == m.grid);
                } else {
                    assert(m2.undo_next(i) == m.undo_next(i));
                }
            } else {
                assert(m2.undo[i] == capture(m.grid, e));
                assert(m2.undo_next(i) == m2.grid);
                assert(m2.hist[i] == m.grid);
            }
        }
    }
}

/// Copies a grid cell by cell; the copy's mathematical value is the
/// original's.
fn copy_grid(src: &Vec<Vec<String>>) -> (dst: Vec<Vec<String>>)
    ensures
        dst.deep_view() == src.deep_view(),
{
    let mut dst: Vec<Vec<String>> = Vec::new();
    let n = src.len();
    for i in 0..n
        invariant
            n == src@.len(),
            dst@.len() == i,
            dst.deep_view() == src.deep_view().take(i as int),
    {
        let mut row: Vec<String> = Vec::new();
        let m = src[i].len();
        for k in 0..m
            invariant
                0 <= i < src@.len(),
                m == src@[i as int]@.len(),
                row@.len() == k,
                row.deep_view() == src.deep_view()[i as int].take(k as int),
        {
            let ghost rv0 = row.deep_view();
            row.push(src[i][k].clone());
            proof {
                assert forall|l: int| 0 <= l < k + 1 implies #[trigger] row.deep_view()[l]
                    == src.deep_view()[i as int].take(k + 1)[l] by {
                    if l < k {
                        assert(row.deep_view()[l] == rv0[l]);
                    } else {
                        assert(row@[l]@ == src@[i as int]@[k as int]@);
                    }
                }
                assert(row.deep_view() =~= src.deep_view()[i as int].take(k + 1));
            }
        }
        let ghost dv0 = dst.deep_view();
        dst.push(row);
        proof {
            assert(row.deep_view() =~= src.deep_view()[i as int]);
            assert forall|j: int| 0 <= j < i + 1 implies #[trigger] dst.deep_view()[j]
                == src.deep_view().take(i + 1)[j] by {
                if j < i {
                    assert(dst.deep_view()[j] == dv0[j]);
                } else {
                    assert(dst@[j] == row);
                }
            }
            assert(dst.deep_view() =~= src.deep_view().take(i + 1));
        }
    }
    proof {
        assert(src.deep_view().take(n as int) =~= src.deep_view());
    }
    dst
}

/// The table-edit model: the live grid, its baseline shadow, the per-cell
/// modified flags, the two history stacks and the two re-entrancy guards,
/// together with the recorded grids each stack entry steps to.
pub struct TableModel {
    grid: Vec<Vec<String>>,
    baseline: Vec<Vec<String>>,
    modified: Vec<Vec<bool>>,
    undo_stack: Vec<TableEdit>,
    redo_stack: Vec<TableEdit>,
    replay_lock: bool,
    batch_lock: bool,
    hist: Ghost<Seq<GridV>>,
    rhist: Ghost<Seq<GridV>>,
}

impl View for TableModel {
    type V = ModelV;

    closed spec fn view(&self) -> ModelV {
        ModelV {
            grid: self.grid.deep_view(),
            baseline: self.baseline.deep_view(),
            modified: self.modified.deep_view(),
            undo: self.undo_stack.deep_view(),
            redo: self.redo_stack.deep_view(),
            hist: self.hist@,
            rhist: self.rhist@,
            replay_lock: self.replay_lock,
            batch_lock: self.batch_lock,
        }
    }
}

impl TableModel {
    /// A model over the given rectangular grid: no cell modified, both
    /// stacks empty, no lock held.
    pub fn new(data: Vec<Vec<String>>) -> (t: TableModel)
        requires
            rect(
                data.deep_view(),
                if data.deep_view().len() > 0 {
                    data.deep_view()[0].len()
                } else {
                    0
                },
            ),
        ensures
            inv(t@),
            t@.grid == data.deep_view(),
            t@.undo.len() == 0,
            t@.redo.len() == 0,
            forall|i: int, j: int|
                0 <= i < t@.modified.len() && 0 <= j < t@.modified[i].len()
                    ==> !(#[trigger] t@.modified[i][j]),
    {
        let baseline = copy_grid(&data);
        let mut modified: Vec<Vec<bool>> = Vec::new();
        let n = data.len();
        for i in 0..n
            invariant
                n == data@.len(),
                modified@.len() == i,
                modified.deep_view() == fresh_marks(data.deep_view()).take(i as int),
        {
            let m = data[i].len();
            let mut row: Vec<bool> = Vec::new();
            for k in 0..m
                invariant
                    row@.len() == k,
                    forall|l: int| 0 <= l < k ==> !(#[trigger] row@[l]),
            {
                row.push(false);
            }
            let ghost mv0 = modified.deep_view();
            modified.push(row);
            proof {
                assert(row@ =~= fresh_marks(data.deep_view())[i as int]);
                assert forall|j: int| 0 <= j < i + 1 implies #[trigger] modified.deep_view()[j]
                    == fresh_marks(data.deep_view()).take(i + 1)[j] by {
                    if j < i {
                        assert(modified.deep_view()[j] == mv0[j]);
                    } else {
                        assert(modified@[j] == row);
                    }
                }
                assert(modified.deep_view() =~= fresh_marks(data.deep_view()).take(i + 1));
            }
        }
        proof {
            assert(fresh_marks(data.deep_view()).take(n as int) =~= fresh_marks(data.deep_view()));
        }
        let t = TableModel {
            grid: data,
            baseline,
            modified,
            undo_stack: Vec::new(),
            redo_stack: Vec::new(),
            replay_lock: false,
            batch_lock: false,
            hist: Ghost(Seq::empty()),
            rhist: Ghost(Seq::empty()),
        };
        proof {
            assert(t@.undo =~= Seq::<Seq<CellWriteV>>::empty());
            assert(t@.redo =~= Seq::<Seq<CellWriteV>>::empty());
        }
        t
    }

    /// The number of rows.
    pub fn row_count(&self) -> (n: usize)
        ensures
            n == self@.rows(),
    {
        self.grid.len()
    }

    /// The number of columns.
    pub fn col_count(&self) -> (n: usize)
        ensures
            n == self@.cols(),
    {
        if self.grid.len() > 0 {
            proof {
                assert(self@.grid[0].len() == self.grid@[0].deep_view().len());
            }
            self.grid[0].len()
        } else {
            0
        }
    }

    /// The value currently held at one cell.
    pub fn cell(&self, row: usize, col: usize) -> (v: &String)
        requires
            row < self@.rows(),
            col < self@.grid[row as int].len(),
        ensures
            v@ == self@.grid[row as int][col as int],
    {
        proof {
            assert(self@.grid[row as int] == self.grid@[row as int].deep_view());
        }
        &self.grid[row][col]
    }

    /// Whether one cell carries the visual "modified" flag.
    pub fn cell_modified(&self, row: usize, col: usize) -> (b: bool)
        requires
            row < self@.modified.len(),
            col < self@.modified[row as int].len(),
        ensures
            b == self@.modified[row as int][col as int],
    {
        proof {
            assert(self@.modified[row as int] == self.modified@[row as int]@);
        }
        self.modified[row][col]
    }

    /// How many edits can be undone.
    pub fn undo_len(&self) -> (n: usize)
        ensures
            n == self@.undo.len(),
    {
        self.undo_stack.len()
    }

    /// How many undone edits can be redone.
    pub fn redo_len(&self) -> (n: usize)
        ensures
            n == self@.redo.len(),
    {
        self.redo_stack.len()
    }

    /// Whether inverting the selection is meaningful: it needs at least
    /// one row and one column.
    pub fn can_invert_selection(&self) -> (b: bool)
        ensures
            b == (self@.rows() > 0 && self@.cols() > 0),
    {
        self.row_count() > 0 && self.col_count() > 0
    }

    /// The raw grid mutation: one cell overwritten, nothing else touched.
    fn write_raw(&mut self, row: usize, col: usize, value: String)
        requires
            row < old(self)@.rows(),
            (col as int) < old(self)@.grid[row as int].len(),
        ensures
            final(self)@ == (ModelV {
                grid: grid_write(
                    old(self)@.grid,
                    CellWriteV { row: row as int, col: col as int, value: value@ },
                ),
                ..old(self)@
            }),
    {
        proof {
            assert(self@.grid[row as int] == self.grid@[row as int].deep_view());
        }
        self.grid[row][col] = value;
        proof {
            let w = CellWriteV { row: row as int, col: col as int, value: value@ };
            assert forall|i: int|
                0 <= i < self.grid.deep_view().len() implies self.grid.deep_view()[i]
                =~= grid_write(old(self)@.grid, w)[i] by {
                if i == row as int {
                    assert(self.grid.deep_view()[i] =~= old(self)@.grid[i].update(
                        col as int,
                        value@,
                    ));
                } else {
                    assert(self.grid@[i] == old(self).grid@[i]);
                }
            }
            assert(self.grid.deep_view() =~= grid_write(old(self)@.grid, w));
            assert(self@ =~= ModelV { grid: grid_write(old(self)@.grid, w), ..old(self)@ });
        }
    }

    /// Marks one cell as visually modified, touching nothing else.
    fn mark_raw(&mut self, row: usize, col: usize)
        requires
            row < old(self)@.modified.len(),
            (col as int) < old(self)@.modified[row as int].len(),
        ensures
            final(self)@ == (ModelV {
                modified: mark_cell(old(self)@.modified, row as int, col as int),
                ..old(self)@
            }),
    {
        proof {
            assert(self@.modified[row as int] == self.modified@[row as int]@);
        }
        self.modified[row][col] = true;
        proof {
            assert forall|j: int|
                0 <= j < self.modified.deep_view().len() implies #[trigger] self.modified.deep_view()[j]
                == mark_cell(old(self)@.modified, row as int, col as int)[j] by {
                if j == row as int {
                    assert(self.modified@[j]@ =~= old(self)@.modified[j].update(col as int, true));
                } else {
                    assert(self.modified@[j] == old(self).modified@[j]);
                }
            }
            assert(self.modified.deep_view() =~= mark_cell(
                old(self)@.modified,
                row as int,
                col as int,
            ));
            assert(self@ =~= ModelV {
                modified: mark_cell(old(self)@.modified, row as int, col as int),
                ..old(self)@
            });
        }
    }

    /// Changes one cell.
    ///
    /// While the replay lock is held the mutation is raw: no record, no
    /// mark. While the batch lock is held the cell is also marked
    /// modified, but recording is left to the enclosing batch. Otherwise
    /// the previous value is diffed against the baseline and recorded as a
    /// one-pair edit, the redo history is cut off, the cell is marked, and
    /// the baseline is refreshed.
    pub fn set_cell(&mut self, row: usize, col: usize, value: String)
        requires
            dims_ok(old(self)@),
            row < old(self)@.rows(),
            col < old(self)@.cols(),
        ensures
            final(self)@ == spec_set_cell(
                old(self)@,
                (CellWriteV { row: row as int, col: col as int, value: value@ }),
            ),
            inv(old(self)@) ==> inv(final(self)@),
    {
        let ghost w = CellWriteV { row: row as int, col: col as int, value: value@ };
        proof {
            if inv(old(self)@) {
                lemma_set_cell_preserves_inv(old(self)@, w);
            }
            assert(old(self)@.grid[row as int].len() == old(self)@.cols());
        }
        if self.replay_lock {
            self.write_raw(row, col, value);
        } else if self.batch_lock {
            self.write_raw(row, col, value);
            self.mark_raw(row, col);
        } else {
            let ghost pre = self@;
            proof {
                assert(self.baseline@.len() == pre.baseline.len());
                assert(pre.baseline[row as int] == self.baseline@[row as int].deep_view());
            }
            let prev = self.baseline[row][col].clone();
            self.write_raw(row, col, value);
            self.mark_raw(row, col);
            let mut writes: Vec<CellWrite> = Vec::new();
            writes.push(CellWrite { row, col, value: prev });
            let edit = TableEdit { writes };
            proof {
                assert(edit@ =~= seq![
                    CellWriteV { row: row as int, col: col as int, value: pre.baseline[row as int][col as int] },
                ]);
            }
            let ghost undo0 = self.undo_stack.deep_view();
            let ghost stack0 = self.undo_stack@;
            self.undo_stack.push(edit);
            self.redo_stack = Vec::new();
            self.hist = Ghost(pre.hist.push(pre.grid));
            self.rhist = Ghost(Seq::empty());
            self.baseline = copy_grid(&self.grid);
            proof {
                assert forall|i: int|
                    0 <= i < self.undo_stack.deep_view().len() implies #[trigger] self.undo_stack.deep_view()[i]
                    == undo0.push(edit@)[i] by {
                    if i < undo0.len() {
                        assert(self.undo_stack@[i] == stack0[i]);
                        assert(undo0[i] == stack0[i].deep_view());
                    } else {
                        assert(self.undo_stack@[i] == edit);
                    }
                }
                assert(self.undo_stack.deep_view() =~= pre.undo.push(edit@));
                assert(self.redo_stack.deep_view() =~= Seq::<Seq<CellWriteV>>::empty());
                assert(self@ =~~= spec_set_cell(pre, w));
            }
        }
    }

    /// Commits a whole batch — a paste — as one undoable edit.
    ///
    /// All previous values are captured against the one pre-batch
    /// baseline, every pair is applied, and a single `TableEdit` is
    /// recorded; the baseline is refreshed only once, after the last pair.
    /// A batch of zero pairs has no effect at all.
    pub fn commit_batch(&mut self, edits: Vec<CellWrite>)
        requires
            inv(old(self)@),
            writes_in_bounds(edits.deep_view(), old(self)@.rows(), old(self)@.cols()),
        ensures
            final(self)@ == spec_commit_batch(old(self)@, edits.deep_view()),
            inv(final(self)@),
    {
        let ghost pre = self@;
        let ghost psv = edits.deep_view();
        proof {
            lemma_commit_batch_preserves_inv(pre, psv);
        }
        if edits.len() == 0 {
            return;
        }
        let n = edits.len();
        let mut prevs: Vec<CellWrite> = Vec::new();
        proof {
            assert(prevs.deep_view() =~= capture(pre.baseline, psv.take(0)));
        }
        for k in 0..n
            invariant
                n == edits@.len(),
                n == psv.len(),
                psv == edits.deep_view(),
                self@ == pre,
                inv(pre),
                writes_in_bounds(psv, pre.rows(), pre.cols()),
                prevs@.len() == k,
                prevs.deep_view() == capture(pre.baseline, psv.take(k as int)),
        {
            proof {
                assert(psv[k as int] == edits@[k as int]@);
                assert(write_in_bounds(psv[k as int], pre.rows(), pre.cols()));
                assert(self.baseline@.len() == pre.baseline.len());
                assert(pre.baseline[edits@[k as int]@.row] == self.baseline@[edits@[k as int]@.row].deep_view());
            }
            let w_row = edits[k].row;
            let w_col = edits[k].col;
            let prev = self.baseline[w_row][w_col].clone();
            let ghost prevs0 = prevs.deep_view();
            prevs.push(CellWrite { row: w_row, col: w_col, value: prev });
            proof {
                assert forall|l: int|
                    0 <= l < k + 1 implies #[trigger] prevs.deep_view()[l]
                    == capture(pre.baseline, psv.take(k + 1))[l] by {
                    if l < k {
                        assert(prevs.deep_view()[l] == prevs0[l]);
                        assert(capture(pre.baseline, psv.take(k + 1))[l] == capture(
                            pre.baseline,
                            psv.take(k as int),
                        )[l]);
                    } else {
                        assert(psv.take(k + 1)[l] == psv[k as int]);
                    }
                }
                assert(prevs.deep_view() =~= capture(pre.baseline, psv.take(k + 1)));
            }
        }
        self.batch_lock = true;
        proof {
            assert(psv.take(0) =~= Seq::<CellWriteV>::empty());
            assert(self@ =~~= (ModelV { batch_lock: true, ..pre }));
        }
        for k in 0..n
            invariant
                n == edits@.len(),
                n == psv.len(),
                psv == edits.deep_view(),
                inv(pre),
                writes_in_bounds(psv, pre.rows(), pre.cols()),
                self@ == (ModelV {
                    grid: apply_writes(pre.grid, psv.take(k as int)),
                    modified: mark_writes(pre.modified, psv.take(k as int)),
                    batch_lock: true,
                    ..pre
                }),
        {
            proof {
                assert(writes_in_bounds(psv.take(k as int), pre.rows(), pre.cols()));
                lemma_apply_writes_dims(pre.grid, psv.take(k as int), pre.cols());
                lemma_mark_writes_dims(pre.modified, psv.take(k as int), pre.cols());
                assert(psv[k as int] == edits@[k as int]@);
                assert(write_in_bounds(psv[k as int], pre.rows(), pre.cols()));
                if pre.rows() > 0 {
                    assert(self@.grid[0].len() == pre.cols());
                }
            }
            let w_row = edits[k].row;
            let w_col = edits[k].col;
            let v = edits[k].value.clone();
            self.set_cell(w_row, w_col, v);
            proof {
                assert(psv.take(k + 1).drop_last() =~= psv.take(k as int));
                assert(psv.take(k + 1).last() == psv[k as int]);
                assert(apply_writes(pre.grid, psv.take(k + 1)) == grid_write(
                    apply_writes(pre.grid, psv.take(k as int)),
                    psv[k as int],
                ));
                assert(mark_writes(pre.modified, psv.take(k + 1)) == mark_cell(
                    mark_writes(pre.modified, psv.take(k as int)),
                    psv[k as int].row,
                    psv[k as int].col,
                ));
                assert(self@ =~~= (ModelV {
                    grid: apply_writes(pre.grid, psv.take(k + 1)),
                    modified: mark_writes(pre.modified, psv.take(k + 1)),
                    batch_lock: true,
                    ..pre
                }));
            }
        }
        self.batch_lock = false;
        let edit = TableEdit { writes: prevs };
        proof {
            assert(psv.take(n as int) =~= psv);
            assert(edit@ == capture(pre.baseline, psv));
        }
        let ghost undo0 = self.undo_stack.deep_view();
        let ghost stack0 = self.undo_stack@;
        self.undo_stack.push(edit);
        self.redo_stack = Vec::new();
        self.hist = Ghost(pre.hist.push(pre.grid));
        self.rhist = Ghost(Seq::empty());
        self.baseline = copy_grid(&self.grid);
        proof {
            assert forall|i: int|
                0 <= i < self.undo_stack.deep_view().len() implies #[trigger] self.undo_stack.deep_view()[i]
                == undo0.push(edit@)[i] by {
                if i < undo0.len() {
                    assert(self.undo_stack@[i] == stack0[i]);
                    assert(undo0[i] == stack0[i].deep_view());
                } else {
                    assert(self.undo_stack@[i] == edit);
                }
            }
            assert(self.undo_stack.deep_view() =~= pre.undo.push(capture(pre.baseline, psv)));
            assert(self.redo_stack.deep_view() =~= Seq::<Seq<CellWriteV>>::empty());
            assert(self@ =~~= spec_commit_batch(pre, psv));
        }
    }

    /// Undoes the most recent edit: a no-op on an empty undo stack;
    /// otherwise the recorded previous values are replayed into the grid —
    /// restoring the exact prior cell values — the superseded values move
    /// onto the redo stack, and the baseline is refreshed to match.
    pub fn undo(&mut self)
        requires
            inv(old(self)@),
        ensures
            final(self)@ == spec_undo(old(self)@),
            inv(final(self)@),
    {
        let ghost pre = self@;
        proof {
            lemma_undo_preserves_inv(pre);
        }
        if self.undo_stack.len() == 0 {
            return;
        }
        let ghost stack0 = self.undo_stack@;
        let edit = self.undo_stack.pop().unwrap();
        let ghost ev = pre.undo.last();
        proof {
            assert(edit == stack0[stack0.len() - 1]);
            assert(edit@ == ev);
            assert forall|i: int|
                0 <= i < self.undo_stack.deep_view().len() implies #[trigger] self.undo_stack.deep_view()[i]
                == pre.undo.drop_last()[i] by {
                assert(self.undo_stack@[i] == stack0[i]);
            }
            assert(self.undo_stack.deep_view() =~= pre.undo.drop_last());
            assert(writes_in_bounds(ev, pre.rows(), pre.cols()));
            assert(capture(pre.grid, ev.take(0)) =~= Seq::<CellWriteV>::empty());
        }
        let n = edit.writes.len();
        let mut rec: Vec<CellWrite> = Vec::new();
        for k in 0..n
            invariant
                n == edit.writes@.len(),
                edit@ == ev,
                n == ev.len(),
                inv(pre),
                writes_in_bounds(ev, pre.rows(), pre.cols()),
                self@ == (ModelV { undo: pre.undo.drop_last(), ..pre }),
                rec@.len() == k,
                rec.deep_view() == capture(pre.grid, ev.take(k as int)),
        {
            proof {
                assert(ev[k as int] == edit.writes@[k as int]@);
                assert(write_in_bounds(ev[k as int], pre.rows(), pre.cols()));
                assert(self.grid@.len() == pre.grid.len());
                assert(pre.grid[ev[k as int].row] == self.grid@[ev[k as int].row].deep_view());
            }
            let w_row = edit.writes[k].row;
            let w_col = edit.writes[k].col;
            let cur = self.grid[w_row][w_col].clone();
            let ghost rec0 = rec.deep_view();
            rec.push(CellWrite { row: w_row, col: w_col, value: cur });
            proof {
                assert forall|l: int|
                    0 <= l < k + 1 implies #[trigger] rec.deep_view()[l]
                    == capture(pre.grid, ev.take(k + 1))[l] by {
                    if l < k {
                        assert(rec.deep_view()[l] == rec0[l]);
                        assert(capture(pre.grid, ev.take(k + 1))[l] == capture(
                            pre.grid,
                            ev.take(k as int),
                        )[l]);
                    } else {
                        assert(ev.take(k + 1)[l] == ev[k as int]);
                    }
                }
                assert(rec.deep_view() =~= capture(pre.grid, ev.take(k + 1)));
            }
        }
        self.replay_lock = true;
        proof {
            assert(ev.take(0) =~= Seq::<CellWriteV>::empty());
            assert(self@ =~~= (ModelV {
                undo: pre.undo.drop_last(),
                replay_lock: true,
                ..pre
            }));
        }
        for k in 0..n
            invariant
                n == edit.writes@.len(),
                edit@ == ev,
                n == ev.len(),
                inv(pre),
                writes_in_bounds(ev, pre.rows(), pre.cols()),
                self@ == (ModelV {
                    grid: apply_writes(pre.grid, ev.take(k as int)),
                    undo: pre.undo.drop_last(),
                    replay_lock: true,
                    ..pre
                }),
        {
            proof {
                assert(writes_in_bounds(ev.take(k as int), pre.rows(), pre.cols()));
                lemma_apply_writes_dims(pre.grid, ev.take(k as int), pre.cols());
                assert(ev[k as int] == edit.writes@[k as int]@);
                assert(write_in_bounds(ev[k as int], pre.rows(), pre.cols()));
                if pre.rows() > 0 {
                    assert(self@.grid[0].len() == pre.cols());
                }
            }
            let w_row = edit.writes[k].row;
            let w_col = edit.writes[k].col;
            let v = edit.writes[k].value.clone();
            self.set_cell(w_row, w_col, v);
            proof {
                assert(ev.take(k + 1).drop_last() =~= ev.take(k as int));
                assert(ev.take(k + 1).last() == ev[k as int]);
                assert(apply_writes(pre.grid, ev.take(k + 1)) == grid_write(
                    apply_writes(pre.grid, ev.take(k as int)),
                    ev[k as int],
                ));
                assert(self@ =~~= (ModelV {
                    grid: apply_writes(pre.grid, ev.take(k + 1)),
                    undo: pre.undo.drop_last(),
                    replay_lock: true,
                    ..pre
                }));
            }
        }
        self.replay_lock = false;
        let ghost rstack0 = self.redo_stack@;
        let ghost redo0 = self.redo_stack.deep_view();
        let rec_edit = TableEdit { writes: rec };
        proof {
            assert(ev.take(n as int) =~= ev);
            assert(rec_edit@ == capture(pre.grid, ev));
            assert(redo0 == pre.redo);
        }
        self.redo_stack.push(rec_edit);
        self.hist = Ghost(pre.hist.drop_last());
        self.rhist = Ghost(pre.rhist.push(pre.grid));
        self.baseline = copy_grid(&self.grid);
        proof {
            assert forall|i: int|
                0 <= i < self.redo_stack.deep_view().len() implies #[trigger] self.redo_stack.deep_view()[i]
                == redo0.push(rec_edit@)[i] by {
                if i < redo0.len() {
                    assert(self.redo_stack@[i] == rstack0[i]);
                    assert(redo0[i] == rstack0[i].deep_view());
                } else {
                    assert(self.redo_stack@[i] == rec_edit);
                }
            }
            assert(self.redo_stack.deep_view() =~= pre.redo.push(capture(pre.grid, ev)));
            assert(self@ =~~= spec_undo(pre));
        }
    }

    /// Redoes the most recently undone edit: a no-op on an empty redo
    /// stack; otherwise the values the undo superseded are replayed back,
    /// the restored previous values return to the undo stack, and the
    /// baseline is refreshed to match.
    pub fn redo(&mut self)
        requires
            inv(old(self)@),
        ensures
            final(self)@ == spec_redo(old(self)@),
            inv(final(self)@),
    {
        let ghost pre = self@;
        proof {
            lemma_redo_preserves_inv(pre);
        }
        if self.redo_stack.len() == 0 {
            return;
        }
        let ghost rstack0 = self.redo_stack@;
        let edit = self.redo_stack.pop().unwrap();
        let ghost ev = pre.redo.last();
        proof {
            assert(edit == rstack0[rstack0.len() - 1]);
            assert(edit@ == ev);
            assert forall|i: int|
                0 <= i < self.redo_stack.deep_view().len() implies #[trigger] self.redo_stack.deep_view()[i]
                == pre.redo.drop_last()[i] by {
                assert(self.redo_stack@[i] == rstack0[i]);
            }
            assert(self.redo_stack.deep_view() =~= pre.redo.drop_last());
            assert(writes_in_bounds(ev, pre.rows(), pre.cols()));
            assert(capture(pre.grid, ev.take(0)) =~= Seq::<CellWriteV>::empty());
        }
        let n = edit.writes.len();
        let mut rec: Vec<CellWrite> = Vec::new();
        for k in 0..n
            invariant
                n == edit.writes@.len(),
                edit@ == ev,
                n == ev.len(),
                inv(pre),
                writes_in_bounds(ev, pre.rows(), pre.cols()),
                self@ == (ModelV { redo: pre.redo.drop_last(), ..pre }),
                rec@.len() == k,
                rec.deep_view() == capture(pre.grid, ev.take(k as int)),
        {
            proof {
                assert(ev[k as int] == edit.writes@[k as int]@);
                assert(write_in_bounds(ev[k as int], pre.rows(), pre.cols()));
                assert(self.grid@.len() == pre.grid.len());
                assert(pre.grid[ev[k as int].row] == self.grid@[ev[k as int].row].deep_view());
            }
            let w_row = edit.writes[k].row;
            let w_col = edit.writes[k].col;
            let cur = self.grid[w_row][w_col].clone();
            let ghost rec0 = rec.deep_view();
            rec.push(CellWrite { row: w_row, col: w_col, value: cur });
            proof {
                assert forall|l: int|
                    0 <= l < k + 1 implies #[trigger] rec.deep_view()[l]
                    == capture(pre.grid, ev.take(k + 1))[l] by {
                    if l < k {
                        assert(rec.deep_view()[l] == rec0[l]);
                        assert(capture(pre.grid, ev.take(k + 1))[l] == capture(
                            pre.grid,
                            ev.take(k as int),
                        )[l]);
                    } else {
                        assert(ev.take(k + 1)[l] == ev[k as int]);
                    }
                }
                assert(rec.deep_view() =~= capture(pre.grid, ev.take(k + 1)));
            }
        }
        self.replay_lock = true;
        proof {
            assert(ev.take(0) =~= Seq::<CellWriteV>::empty());
            assert(self@ =~~= (ModelV {
                redo: pre.redo.drop_last(),
                replay_lock: true,
                ..pre
            }));
        }
        for k in 0..n
            invariant
                n == edit.writes@.len(),
                edit@ == ev,
                n == ev.len(),
                inv(pre),
                writes_in_bounds(ev, pre.rows(), pre.cols()),
                self@ == (ModelV {
                    grid: apply_writes(pre.grid, ev.take(k as int)),
                    redo: pre.redo.drop_last(),
                    replay_lock: true,
                    ..pre
                }),
        {
            proof {
                assert(writes_in_bounds(ev.take(k as int), pre.rows(), pre.cols()));
                lemma_apply_writes_dims(pre.grid, ev.take(k as int), pre.cols());
                assert(ev[k as int] == edit.writes@[k as int]@);
                assert(write_in_bounds(ev[k as int], pre.rows(), pre.cols()));
                if pre.rows() > 0 {
                    assert(self@.grid[0].len() == pre.cols());
                }
            }
            let w_row = edit.writes[k].row;
            let w_col = edit.writes[k].col;
            let v = edit.writes[k].value.clone();
            self.set_cell(w_row, w_col, v);
            proof {
                assert(ev.take(k + 1).drop_last() =~= ev.take(k as int));
                assert(ev.take(k + 1).last() == ev[k as int]);
                assert(apply_writes(pre.grid, ev.take(k + 1)) == grid_write(
                    apply_writes(pre.grid, ev.take(k as int)),
                    ev[k as int],
                ));
                assert(self@ =~~= (ModelV {
                    grid: apply_writes(pre.grid, ev.take(k + 1)),
                    redo: pre.redo.drop_last(),
                    replay_lock: true,
                    ..pre
                }));
            }
        }
        self.replay_lock = false;
        let ghost ustack0 = self.undo_stack@;
        let ghost undo0 = self.undo_stack.deep_view();
        let rec_edit = TableEdit { writes: rec };
        proof {
            assert(ev.take(n as int) =~= ev);
            assert(rec_edit@ == capture(pre.grid, ev));
            assert(undo0 == pre.undo);
        }
        self.undo_stack.push(rec_edit);
        self.hist = Ghost(pre.hist.push(pre.grid));
        self.rhist = Ghost(pre.rhist.drop_last());
        self.baseline = copy_grid(&self.grid);
        proof {
            assert forall|i: int|
                0 <= i < self.undo_stack.deep_view().len() implies #[trigger] self.undo_stack.deep_view()[i]
                == undo0.push(rec_edit@)[i] by {
                if i < undo0.len() {
                    assert(self.undo_stack@[i] == ustack0[i]);
                    assert(undo0[i] == ustack0[i].deep_view());
                } else {
                    assert(self.undo_stack@[i] == rec_edit);
                }
            }
            assert(self.undo_stack.deep_view() =~= pre.undo.push(capture(pre.grid, ev)));
            assert(self@ =~~= spec_redo(pre));
        }
    }
}

} // verus!
