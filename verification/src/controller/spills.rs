//! Spill errors of single code cells.

use crate::controller::execution::model::{flip_op, performed};
use crate::controller::grid_controller::GridController;
use crate::controller::operation::Operation;
use crate::controller::pending_transaction::{PendingTransaction, PendingView};
use crate::grid::code::CellRef;
use crate::grid::sheet::SheetView;
use crate::grid::{sheet_index, GridView};
use crate::pos_map::{has_key, lemma_rank_splits, rank};
use crate::position::{Pos, SheetPos};
use crate::values::CodeRun;
use vstd::prelude::*;

verus! {

/// The first code run from `i` on that has a spill error, asks for the
/// cell at `pos`, and is no longer blocked.
pub open spec fn released_from(s: SheetView, pos: Pos, i: int) -> Option<int>
    decreases s.code_runs.len() - i,
{
    if i < 0 || i >= s.code_runs.len() {
        None
    } else if s.code_runs[i].1.spill_error && s.code_runs[i].1.spec_output_rect(
        s.code_runs[i].0,
        true,
    ).spec_contains(pos) && !s.blocked(i) {
        Some(i)
    } else {
        released_from(s, pos, i + 1)
    }
}

/// What checking the cell that `cell_ref` names does: if the output of a
/// code cell elsewhere covers the cell, that code cell gets a spill error.
pub open spec fn spill_checked(g: GridView, t: PendingView, cell_ref: CellRef) -> (
    GridView,
    PendingView,
) {
    match sheet_index(g, cell_ref.sheet) {
        Some(s) => match g[s].covering_from(cell_ref.spec_pos(), 0) {
            Some(k) => if g[s].code_runs[k].0 != cell_ref.spec_pos()
                && !g[s].code_runs[k].1.spill_error {
                performed(g, t, flip_op(g[s], k, true))
            } else {
                (g, t)
            },
            None => (g, t),
        },
        None => (g, t),
    }
}

/// What setting a spill error on the code cell that `cell_ref` names
/// does: its run gets the error, if there is a run without one.
pub open spec fn spill_error_set(g: GridView, t: PendingView, cell_ref: CellRef) -> (
    GridView,
    PendingView,
) {
    match sheet_index(g, cell_ref.sheet) {
        Some(s) => if has_key(g[s].code_runs, cell_ref.spec_pos()) && !g[s].code_runs[rank(
            g[s].code_runs,
            cell_ref.spec_pos(),
        )].1.spill_error {
            performed(g, t, flip_op(g[s], rank(g[s].code_runs, cell_ref.spec_pos()), true))
        } else {
            (g, t)
        },
        None => (g, t),
    }
}

/// What emptying the cell that `cell_ref` names releases: the first code
/// run with a spill error that asks for the cell and is no longer
/// blocked loses the error.
pub open spec fn spill_released(g: GridView, t: PendingView, cell_ref: CellRef) -> (
    GridView,
    PendingView,
) {
    match sheet_index(g, cell_ref.sheet) {
        Some(s) => match released_from(g[s], cell_ref.spec_pos(), 0) {
            Some(k) => performed(g, t, flip_op(g[s], k, false)),
            None => (g, t),
        },
        None => (g, t),
    }
}

impl GridController {
    /// Checks whether a value in the cell that `cell_ref` names is in
    /// the way of the output of a code cell: see [`spill_checked`].
    pub fn check_spill(&mut self, transaction: &mut PendingTransaction, cell_ref: CellRef)
        requires
            old(self).grid.wf(),
        ensures
            final(self).grid.wf(),
            (final(self).grid@, final(transaction)@) == spill_checked(
                old(self).grid@,
                old(transaction)@,
                cell_ref,
            ),
            final(self).transactions == old(self).transactions,
            final(self).undo_stack == old(self).undo_stack,
            final(self).redo_stack == old(self).redo_stack,
    {
        let change = match self.grid.try_sheet(cell_ref.sheet) {
            Some(sheet) => {
                let n = sheet.code_runs_len();
                let pos = cell_ref.pos();
                let mut found: Option<Operation> = None;
                let mut i: usize = 0;
                let mut done = false;
                while i < n && !done
                    invariant
                        i <= n,
                        n == sheet@.code_runs.len(),
                        pos == cell_ref.spec_pos(),
                        sheet@.covering_from(pos, i as int) == sheet@.covering_from(pos, 0),
                        done ==> sheet@.covering_from(pos, 0) == Some(i as int),
                        !done ==> found is None,
                        done ==> match found {
                            Some(op) => sheet@.code_runs[i as int].0 != pos
                                && !sheet@.code_runs[i as int].1.spill_error && op == flip_op(
                                sheet@,
                                i as int,
                                true,
                            ),
                            None => !(sheet@.code_runs[i as int].0 != pos
                                && !sheet@.code_runs[i as int].1.spill_error),
                        },
                    decreases
                            n - i + if done {
                                0int
                            } else {
                                1int
                            },
                {
                    let (anchor, run) = sheet.code_run_at_index(i).unwrap();
                    if run.output_rect(anchor, false).contains(pos) {
                        done = true;
                        if anchor != pos && !run.spill_error {
                            found = Some(
                                Operation::SetCodeRun {
                                    sheet_pos: SheetPos {
                                        x: anchor.x,
                                        y: anchor.y,
                                        sheet_id: sheet.id(),
                                    },
                                    code_run: Some(
                                        CodeRun { result: run.result.clone(), spill_error: true },
                                    ),
                                },
                            );
                        }
                    } else {
                        i += 1;
                    }
                }
                found
            },
            None => None,
        };
        match change {
            Some(op) => {
                self.perform(transaction, op);
            },
            None => {},
        }
    }

    /// Gives the code cell that `cell_ref` names a spill error: see
    /// [`spill_error_set`].
    pub fn set_spill_error(&mut self, transaction: &mut PendingTransaction, cell_ref: CellRef)
        requires
            old(self).grid.wf(),
        ensures
            final(self).grid.wf(),
            (final(self).grid@, final(transaction)@) == spill_error_set(
                old(self).grid@,
                old(transaction)@,
                cell_ref,
            ),
            final(self).transactions == old(self).transactions,
            final(self).undo_stack == old(self).undo_stack,
            final(self).redo_stack == old(self).redo_stack,
    {
        let change = match self.grid.try_sheet(cell_ref.sheet) {
            Some(sheet) => {
                proof {
                    lemma_rank_splits(sheet@.code_runs, cell_ref.spec_pos());
                }
                match sheet.get_code_cell_from_ref(cell_ref) {
                    Some(run) => {
                        if !run.has_spill_error() {
                            Some(
                                Operation::SetCodeRun {
                                    sheet_pos: SheetPos {
                                        x: cell_ref.column,
                                        y: cell_ref.row,
                                        sheet_id: sheet.id(),
                                    },
                                    code_run: Some(
                                        CodeRun { result: run.result.clone(), spill_error: true },
                                    ),
                                },
                            )
                        } else {
                            None
                        }
                    },
                    None => None,
                }
            },
            None => None,
        };
        match change {
            Some(op) => {
                self.perform(transaction, op);
            },
            None => {},
        }
    }

    /// Takes the spill error off a code cell that the emptying of the
    /// cell that `cell_ref` names has set free: see [`spill_released`].
    pub fn update_code_cell_value_if_spill_error_released(
        &mut self,
        transaction: &mut PendingTransaction,
        cell_ref: CellRef,
    )
        requires
            old(self).grid.wf(),
        ensures
            final(self).grid.wf(),
            (final(self).grid@, final(transaction)@) == spill_released(
                old(self).grid@,
                old(transaction)@,
                cell_ref,
            ),
            final(self).transactions == old(self).transactions,
            final(self).undo_stack == old(self).undo_stack,
            final(self).redo_stack == old(self).redo_stack,
    {
        let change = match self.grid.try_sheet(cell_ref.sheet) {
            Some(sheet) => {
                let n = sheet.code_runs_len();
                let pos = cell_ref.pos();
                let mut found: Option<Operation> = None;
                let mut i: usize = 0;
                while i < n && found.is_none()
                    invariant
                        i <= n,
                        n == sheet@.code_runs.len(),
                        pos == cell_ref.spec_pos(),
                        released_from(sheet@, pos, i as int) == released_from(sheet@, pos, 0),
                        match found {
                            Some(op) => released_from(sheet@, pos, 0) == Some(i as int) && op
                                == flip_op(sheet@, i as int, false),
                            None => true,
                        },
                    decreases
                            n - i + if found is Some {
                                0int
                            } else {
                                1int
                            },
                {
                    let (anchor, run) = sheet.code_run_at_index(i).unwrap();
                    let wanted = run.output_rect(anchor, true);
                    if run.spill_error && wanted.contains(pos) && !(sheet.has_cell_value_in_rect(
                        &wanted,
                        Some(anchor),
                    ) || sheet.has_code_cell_anchor_in_rect(&wanted, anchor)
                        || sheet.has_code_cell_in_rect(&wanted, anchor)) {
                        found = Some(
                            Operation::SetCodeRun {
                                sheet_pos: SheetPos {
                                    x: anchor.x,
                                    y: anchor.y,
                                    sheet_id: sheet.id(),
                                },
                                code_run: Some(
                                    CodeRun { result: run.result.clone(), spill_error: false },
                                ),
                            },
                        );
                    } else {
                        i += 1;
                    }
                }
                found
            },
            None => None,
        };
        match change {
            Some(op) => {
                self.perform(transaction, op);
            },
            None => {},
        }
    }
}

} // verus!
