use archive_session::table::CellWrite;
use archive_session::table::TableModel;

fn s(x: &str) -> String {
    x.to_owned()
}

fn grid_3x2() -> Vec<Vec<String>> {
    vec![
        vec![s("a0"), s("b0")],
        vec![s("a1"), s("b1")],
        vec![s("a2"), s("b2")],
    ]
}

fn snapshot(t: &TableModel) -> Vec<Vec<String>> {
    let mut out = Vec::new();
    for r in 0..t.row_count() {
        let mut row = Vec::new();
        for c in 0..t.col_count() {
            row.push(t.cell(r, c).clone());
        }
        out.push(row);
    }
    out
}

#[test]
fn edits_then_undo_all_restores_initial_grid() {
    let mut t = TableModel::new(grid_3x2());
    let before = snapshot(&t);
    t.set_cell(0, 0, s("x"));
    t.set_cell(1, 1, s("y"));
    t.commit_batch(vec![
        CellWrite { row: 2, col: 0, value: s("p") },
        CellWrite { row: 2, col: 1, value: s("q") },
    ]);
    assert_eq!(t.undo_len(), 3);
    t.undo();
    t.undo();
    t.undo();
    assert_eq!(snapshot(&t), before);
    assert_eq!(t.undo_len(), 0);
}

#[test]
fn undo_all_then_redo_all_returns_to_last_edit() {
    let mut t = TableModel::new(grid_3x2());
    t.set_cell(0, 0, s("x"));
    t.set_cell(0, 0, s("y"));
    t.commit_batch(vec![
        CellWrite { row: 1, col: 0, value: s("p") },
        CellWrite { row: 1, col: 1, value: s("q") },
    ]);
    let after_edits = snapshot(&t);
    t.undo();
    t.undo();
    t.undo();
    t.redo();
    t.redo();
    t.redo();
    assert_eq!(snapshot(&t), after_edits);
    assert_eq!(t.undo_len(), 3);
    assert_eq!(t.redo_len(), 0);
}

#[test]
fn new_edit_after_undo_clears_redo() {
    let mut t = TableModel::new(grid_3x2());
    t.set_cell(0, 0, s("x"));
    t.set_cell(0, 1, s("y"));
    t.undo();
    assert_eq!(t.redo_len(), 1);
    t.set_cell(2, 1, s("z"));
    assert_eq!(t.redo_len(), 0);
    // the undone step cannot come back
    t.redo();
    assert_eq!(t.cell(0, 1).as_str(), "b0");
}

#[test]
fn commit_batch_is_exactly_one_undo_step() {
    let mut t = TableModel::new(grid_3x2());
    t.commit_batch(vec![
        CellWrite { row: 0, col: 0, value: s("k1") },
        CellWrite { row: 1, col: 0, value: s("k2") },
        CellWrite { row: 2, col: 0, value: s("k3") },
    ]);
    assert_eq!(t.undo_len(), 1);
    assert_eq!(t.cell(0, 0).as_str(), "k1");
    assert_eq!(t.cell(1, 0).as_str(), "k2");
    assert_eq!(t.cell(2, 0).as_str(), "k3");
    t.undo();
    assert_eq!(t.cell(0, 0).as_str(), "a0");
    assert_eq!(t.cell(1, 0).as_str(), "a1");
    assert_eq!(t.cell(2, 0).as_str(), "a2");
    assert_eq!(t.undo_len(), 0);
}

#[test]
fn empty_batch_has_no_effect() {
    let mut t = TableModel::new(grid_3x2());
    let before = snapshot(&t);
    t.commit_batch(Vec::new());
    assert_eq!(snapshot(&t), before);
    assert_eq!(t.undo_len(), 0);
    assert_eq!(t.redo_len(), 0);
}

#[test]
fn undo_and_redo_on_empty_stacks_are_no_ops() {
    let mut t = TableModel::new(grid_3x2());
    let before = snapshot(&t);
    t.undo();
    t.redo();
    assert_eq!(snapshot(&t), before);
    assert_eq!(t.undo_len(), 0);
    assert_eq!(t.redo_len(), 0);
}

#[test]
fn set_cell_writes_value_and_marks_modified() {
    let mut t = TableModel::new(grid_3x2());
    assert!(!t.cell_modified(1, 1));
    t.set_cell(1, 1, s("fresh"));
    assert_eq!(t.cell(1, 1).as_str(), "fresh");
    assert!(t.cell_modified(1, 1));
    assert!(!t.cell_modified(0, 0));
}

#[test]
fn undo_restores_each_exact_prior_value() {
    let mut t = TableModel::new(grid_3x2());
    t.set_cell(0, 0, s("first"));
    t.set_cell(0, 0, s("second"));
    t.undo();
    assert_eq!(t.cell(0, 0).as_str(), "first");
    t.undo();
    assert_eq!(t.cell(0, 0).as_str(), "a0");
    t.redo();
    assert_eq!(t.cell(0, 0).as_str(), "first");
    t.redo();
    assert_eq!(t.cell(0, 0).as_str(), "second");
}

#[test]
fn invert_selection_needs_rows_and_columns() {
    let t = TableModel::new(grid_3x2());
    assert!(t.can_invert_selection());
    let empty = TableModel::new(Vec::new());
    assert!(!empty.can_invert_selection());
}

#[test]
fn batch_with_repeated_coordinate_undoes_cleanly() {
    let mut t = TableModel::new(grid_3x2());
    t.commit_batch(vec![
        CellWrite { row: 0, col: 0, value: s("one") },
        CellWrite { row: 0, col: 0, value: s("two") },
    ]);
    assert_eq!(t.cell(0, 0).as_str(), "two");
    assert_eq!(t.undo_len(), 1);
    t.undo();
    assert_eq!(t.cell(0, 0).as_str(), "a0");
}

#[test]
fn interleaved_undo_redo_walks_the_history() {
    let mut t = TableModel::new(grid_3x2());
    t.set_cell(0, 0, s("one"));
    t.set_cell(0, 0, s("two"));
    t.undo();
    t.redo();
    assert_eq!(t.cell(0, 0).as_str(), "two");
    t.undo();
    t.undo();
    assert_eq!(t.cell(0, 0).as_str(), "a0");
    assert_eq!(t.undo_len(), 0);
    assert_eq!(t.redo_len(), 2);
}

#[test]
fn grid_with_empty_rows_supports_no_selection() {
    let t = TableModel::new(vec![Vec::new(), Vec::new()]);
    assert_eq!(t.row_count(), 2);
    assert_eq!(t.col_count(), 0);
    assert!(!t.can_invert_selection());
}
