//! Checking whether the output of code cells can be laid out.

use crate::controller::execution::model::{flip_op, performed, runs_len, swept};
use crate::controller::grid_controller::GridController;
use crate::controller::operation::Operation;
use crate::controller::pending_transaction::{PendingTransaction, PendingView};
use crate::grid::{sheet_index, GridView};
use crate::position::{Rect, SheetId, SheetPos, SheetRect};
use crate::values::CodeRun;
use vstd::prelude::*;

verus! {

/// The grid and the transaction after the code run at `index` of the
/// sheet `sheet_id` was given the spill error `flag` and the runs behind
/// it were checked. Without such a sheet nothing happens; without such a
/// run only the check does.
pub open spec fn spill_changed(
    g: GridView,
    t: PendingView,
    sheet_id: SheetId,
    index: int,
    flag: bool,
) -> (GridView, PendingView) {
    match sheet_index(g, sheet_id) {
        None => (g, t),
        Some(si) => {
            let (g2, t2) = if 0 <= index < g[si].code_runs.len() {
                performed(g, t, flip_op(g[si], index, flag))
            } else {
                (g, t)
            };
            swept(g2, t2, sheet_id, index + 1, runs_len(g2, sheet_id), None)
        },
    }
}

impl GridController {
    /// Looks at the code runs of the sheet `sheet_id` from `start` up to
    /// `n`, with `rect` as [`swept`] takes it.
    fn sweep(
        &mut self,
        transaction: &mut PendingTransaction,
        sheet_id: SheetId,
        start: usize,
        n: usize,
        rect: Option<Rect>,
    )
        requires
            old(self).grid.wf(),
        ensures
            final(self).grid.wf(),
            (final(self).grid@, final(transaction)@) == swept(
                old(self).grid@,
                old(transaction)@,
                sheet_id,
                start as int,
                n as int,
                rect,
            ),
            final(self).transactions == old(self).transactions,
            final(self).undo_stack == old(self).undo_stack,
            final(self).redo_stack == old(self).redo_stack,
    {
        let ghost first = rect;
        let mut rect = rect;
        let mut i = start;
        let mut done = false;
        while i < n && !done
            invariant
                self.grid.wf(),
                swept(self.grid@, transaction@, sheet_id, i as int, n as int, rect) == swept(
                    old(self).grid@,
                    old(transaction)@,
                    sheet_id,
                    start as int,
                    n as int,
                    first,
                ),
                done ==> swept(self.grid@, transaction@, sheet_id, i as int, n as int, rect) == (
                    self.grid@,
                    transaction@,
                ),
                self.transactions == old(self).transactions,
                self.undo_stack == old(self).undo_stack,
                self.redo_stack == old(self).redo_stack,
            decreases
                    n - i + if done {
                        0int
                    } else {
                        1int
                    },
        {
            let change = match self.grid.try_sheet(sheet_id) {
                Some(sheet) => {
                    match sheet.code_run_at_index(i) {
                        Some((pos, run)) => {
                            let wanted = run.output_rect(pos, true);
                            let in_scope = match rect {
                                Some(r) => wanted.intersects(r),
                                None => true,
                            };
                            let blocked = sheet.has_cell_value_in_rect(&wanted, Some(pos))
                                || sheet.has_code_cell_anchor_in_rect(&wanted, pos)
                                || sheet.has_code_cell_in_rect(&wanted, pos);
                            if in_scope && blocked != run.spill_error {
                                Some(
                                    Operation::SetCodeRun {
                                        sheet_pos: SheetPos {
                                            x: pos.x,
                                            y: pos.y,
                                            sheet_id: sheet.id(),
                                        },
                                        code_run: Some(
                                            CodeRun {
                                                result: run.result.clone(),
                                                spill_error: blocked,
                                            },
                                        ),
                                    },
                                )
                            } else {
                                None
                            }
                        },
                        None => {
                            done = true;
                            None
                        },
                    }
                },
                None => {
                    done = true;
                    None
                },
            };
            if !done {
                match change {
                    Some(op) => {
                        self.perform(transaction, op);
                        rect = None;
                    },
                    None => {},
                }
                i += 1;
            }
        }
    }

    /// The number of code runs on the sheet that `sheet_id` names.
    fn count_runs(&self, sheet_id: SheetId) -> (n: usize)
        ensures
            n == runs_len(self.grid@, sheet_id),
    {
        match self.grid.try_sheet(sheet_id) {
            Some(sheet) => sheet.code_runs_len(),
            None => 0,
        }
    }

    /// Gives the code run at `index` of the sheet `sheet_id` the spill
    /// error `set_spill_error`, and checks the runs behind it: see
    /// [`spill_changed`].
    pub fn change_spill(
        &mut self,
        transaction: &mut PendingTransaction,
        sheet_id: SheetId,
        index: usize,
        set_spill_error: bool,
    )
        requires
            old(self).grid.wf(),
            index < usize::MAX,
        ensures
            final(self).grid.wf(),
            (final(self).grid@, final(transaction)@) == spill_changed(
                old(self).grid@,
                old(transaction)@,
                sheet_id,
                index as int,
                set_spill_error,
            ),
            final(self).transactions == old(self).transactions,
            final(self).undo_stack == old(self).undo_stack,
            final(self).redo_stack == old(self).redo_stack,
    {
        let change = match self.grid.try_sheet(sheet_id) {
            Some(sheet) => {
                match sheet.code_run_at_index(index) {
                    Some((pos, run)) => Some(
                        Operation::SetCodeRun {
                            sheet_pos: SheetPos { x: pos.x, y: pos.y, sheet_id: sheet.id() },
                            code_run: Some(
                                CodeRun { result: run.result.clone(), spill_error: set_spill_error },
                            ),
                        },
                    ),
                    None => None,
                }
            },
            None => {
                return ;
            },
        };
        match change {
            Some(op) => {
                self.perform(transaction, op);
            },
            None => {},
        }
        let n = self.count_runs(sheet_id);
        self.sweep(transaction, sheet_id, index + 1, n, None);
    }

    /// Checks for spills where the cells of `sheet_rect` have changed:
    /// the code runs whose output touches `sheet_rect` are looked at in
    /// sheet order, and once one of them was changed, every run behind
    /// it. See [`swept`].
    pub fn check_spills(&mut self, transaction: &mut PendingTransaction, sheet_rect: &SheetRect)
        requires
            old(self).grid.wf(),
        ensures
            final(self).grid.wf(),
            (final(self).grid@, final(transaction)@) == swept(
                old(self).grid@,
                old(transaction)@,
                sheet_rect.sheet_id,
                0,
                runs_len(old(self).grid@, sheet_rect.sheet_id),
                Some(sheet_rect.spec_rect()),
            ),
            final(self).transactions == old(self).transactions,
            final(self).undo_stack == old(self).undo_stack,
            final(self).redo_stack == old(self).redo_stack,
    {
        let n = self.count_runs(sheet_rect.sheet_id);
        self.sweep(transaction, sheet_rect.sheet_id, 0, n, Some(sheet_rect.rect()));
    }

    /// Checks the code runs of the sheet `sheet_id` from `start` on for
    /// spill errors that no longer say whether the output is blocked.
    /// See [`swept`].
    pub fn check_all_spills(
        &mut self,
        transaction: &mut PendingTransaction,
        sheet_id: SheetId,
        start: usize,
    )
        requires
            old(self).grid.wf(),
        ensures
            final(self).grid.wf(),
            (final(self).grid@, final(transaction)@) == swept(
                old(self).grid@,
                old(transaction)@,
                sheet_id,
                start as int,
                runs_len(old(self).grid@, sheet_id),
                None,
            ),
            final(self).transactions == old(self).transactions,
            final(self).undo_stack == old(self).undo_stack,
            final(self).redo_stack == old(self).redo_stack,
    {
        let n = self.count_runs(sheet_id);
        self.sweep(transaction, sheet_id, start, n, None);
    }
}

} // verus!
