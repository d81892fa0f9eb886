//! Moving a block of cells.

use crate::controller::execution::model::{cut_ops, movable, move_expansion, paste_ops, with_skip};
use crate::controller::grid_controller::GridController;
use crate::controller::operation::Operation;
use crate::controller::pending_transaction::{PendingTransaction, PendingView};
use crate::position::SheetPos;
use crate::values::CellValue;
use std::collections::VecDeque;
use vstd::prelude::*;

verus! {

impl GridController {
    /// Replaces a move by the edits it stands for: the edits that empty
    /// the cells to move and the edits that store their values where they
    /// land are put at the front of the queue of `transaction`. Where the
    /// sheet to move from is missing, the summary notes a skipped edit. An
    /// edit that is no move changes nothing.
    pub fn execute_move_cells(&mut self, transaction: &mut PendingTransaction, op: Operation)
        requires
            old(self).grid.wf(),
        ensures
            *final(self) == *old(self),
            final(transaction)@ == match op {
                Operation::MoveCells { source, dest } => match move_expansion(
                    old(self).grid@,
                    source,
                    dest,
                ) {
                    Some(ops) => PendingView {
                        operations: ops + old(transaction)@.operations,
                        ..old(transaction)@
                    },
                    None => with_skip(old(transaction)@),
                },
                _ => old(transaction)@,
            },
    {
        if let Operation::MoveCells { source, dest } = op {
            match self.grid.try_sheet(source.sheet_id) {
                Some(sheet) => {
                    let mut operations: VecDeque<Operation> = VecDeque::new();
                    let mut paste: VecDeque<Operation> = VecDeque::new();
                    let n = sheet.cells_len();
                    let mut i: usize = 0;
                    while i < n
                        invariant
                            i <= n,
                            n == sheet@.cells.len(),
                            operations@ == cut_ops(sheet@.cells.subrange(0, i as int), source, dest),
                            paste@ == paste_ops(sheet@.cells.subrange(0, i as int), source, dest),
                        decreases n - i,
                    {
                        let (pos, value) = sheet.cell_at_index(i).unwrap();
                        let ghost next = sheet@.cells.subrange(0, i + 1);
                        assert(next.drop_last() =~= sheet@.cells.subrange(0, i as int));
                        assert(next.last() == sheet@.cells[i as int]);
                        if source.rect().contains(pos) {
                            let x: i128 = dest.x as i128 + (pos.x as i128 - source.min.x as i128);
                            let y: i128 = dest.y as i128 + (pos.y as i128 - source.min.y as i128);
                            if x >= i64::MIN as i128 && x <= i64::MAX as i128 && y
                                >= i64::MIN as i128 && y <= i64::MAX as i128 {
                                operations.push_back(
                                    Operation::SetCellValue {
                                        sheet_pos: SheetPos {
                                            x: pos.x,
                                            y: pos.y,
                                            sheet_id: source.sheet_id,
                                        },
                                        value: CellValue::Blank,
                                    },
                                );
                                paste.push_back(
                                    Operation::SetCellValue {
                                        sheet_pos: SheetPos {
                                            x: x as i64,
                                            y: y as i64,
                                            sheet_id: dest.sheet_id,
                                        },
                                        value: value.clone(),
                                    },
                                );
                                assert(movable(pos, source, dest));
                            } else {
                                assert(!movable(pos, source, dest));
                            }
                        } else {
                            assert(!movable(pos, source, dest));
                        }
                        i += 1;
                    }
                    assert(sheet@.cells.subrange(0, n as int) =~= sheet@.cells);
                    operations.append(&mut paste);
                    operations.append(&mut transaction.operations);
                    transaction.operations = operations;
                },
                None => {
                    transaction.summary.skipped_operations = true;
                },
            }
        }
    }
}

} // verus!
