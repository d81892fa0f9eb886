//! Running code cells: formulas at once, other languages outside.

use crate::controller::execution::model::{code_cell_at, store_run_ops, with_skip};
use crate::controller::grid_controller::GridController;
use crate::controller::operation::Operation;
use crate::controller::pending_transaction::{AsyncRequest, PendingTransaction, PendingView};
use crate::formulas::run::{formula_run, run_formula};
use crate::grid::sheet_index;
use crate::position::{SheetPos, SheetRect};
use crate::values::{CellValue, CodeRun};

use vstd::prelude::*;

verus! {

impl GridController {
    /// The run of a code cell at `sheet_pos` with the formula
    /// `code_string`: its value on the sheet as it is now. `None` where
    /// the sheet is missing.
    pub fn eval_formula(&self, code_string: &String, sheet_pos: SheetPos) -> (r: Option<CodeRun>)
        requires
            self.grid.wf(),
        ensures
            r == match sheet_index(self.grid@, sheet_pos.sheet_id) {
                Some(i) => Some(formula_run(self.grid@[i], sheet_pos.spec_pos(), code_string@)),
                None => None,
            },
    {
        match self.grid.try_sheet(sheet_pos.sheet_id) {
            Some(sheet) => {
                proof {
                    assert(sheet.wf());
                }
                Some(run_formula(sheet, sheet_pos.pos(), code_string.as_str()))
            },
            None => None,
        }
    }

    /// Carries out the request to run the code cell at `sheet_pos`. A
    /// formula is evaluated at once and the edits that store its value
    /// are put at the front of the queue. For another language a
    /// transaction made here is suspended until the result comes in. The
    /// request is skipped where no code cell is found, and for another
    /// language in a transaction that was not made here.
    pub fn execute_compute_code(&mut self, transaction: &mut PendingTransaction, sheet_pos: SheetPos)
        requires
            old(self).grid.wf(),
        ensures
            *final(self) == *old(self),
            final(transaction)@ == match code_cell_at(old(self).grid@, sheet_pos) {
                Some(code_cell) => if code_cell.language.spec_is_async() {
                    if old(transaction)@.transaction_type.spec_is_local() {
                        PendingView {
                            waiting_for_async: Some(AsyncRequest { sheet_pos, code_cell }),
                            has_async: true,
                            ..old(transaction)@
                        }
                    } else {
                        with_skip(old(transaction)@)
                    }
                } else {
                    PendingView {
                        operations: store_run_ops(
                            sheet_pos,
                            formula_run(
                                old(self).grid@[sheet_index(
                                    old(self).grid@,
                                    sheet_pos.sheet_id,
                                )->0],
                                sheet_pos.spec_pos(),
                                code_cell.code@,
                            ),
                        ) + old(transaction)@.operations,
                        ..old(transaction)@
                    }
                },
                None => with_skip(old(transaction)@),
            },
    {
        let code_cell = match self.grid.try_sheet(sheet_pos.sheet_id) {
            Some(sheet) => {
                match sheet.get_cell_value_only(sheet_pos.pos()) {
                    Some(CellValue::Code(code_cell)) => Some(code_cell),
                    _ => None,
                }
            },
            None => None,
        };
        match code_cell {
            Some(code_cell) => {
                if code_cell.language.is_async() {
                    if transaction.transaction_type.is_local() {
                        transaction.waiting_for_async = Some(AsyncRequest { sheet_pos, code_cell });
                        transaction.has_async = true;
                    } else {
                        transaction.summary.skipped_operations = true;
                    }
                } else {
                    let run = self.eval_formula(&code_cell.code, sheet_pos).unwrap();
                    let ghost rest = transaction.operations@;
                    transaction.operations.push_front(
                        Operation::CheckAllSpills { sheet_id: sheet_pos.sheet_id },
                    );
                    transaction.operations.push_front(
                        Operation::CheckSpills {
                            sheet_rect: SheetRect::single_sheet_pos(sheet_pos),
                        },
                    );
                    transaction.operations.push_front(
                        Operation::SetCodeRun { sheet_pos, code_run: Some(run) },
                    );
                    assert(transaction.operations@ =~= store_run_ops(sheet_pos, run) + rest);
                }
            },
            None => {
                transaction.summary.skipped_operations = true;
            },
        }
    }
}

} // verus!
