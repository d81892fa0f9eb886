//! What a user does to the grid: each action is a transaction made here.

use crate::controller::execution::model::lemma_run_keeps;
use crate::controller::execution::{finalized, started};
use crate::controller::grid_controller::{ControllerView, GridController};
use crate::controller::guarantees::local_work_is_layered;
use crate::controller::layers::layered;
use crate::controller::operation::Operation;
use crate::controller::pending_transaction::{PendingTransaction, PendingView};
use crate::controller::transaction::TransactionType;
use crate::controller::transaction_summary::{SummaryView, TransactionSummary};
use crate::outside::{new_uuid, uuid_text};
use crate::grid::{sheet_index, GridView};
use crate::pos_map::has_key;
use crate::position::{Rect, SheetId, SheetPos, SheetRect};
use crate::values::{CellValue, CodeCellLanguage, CodeCellValue, OutputSize};
use crate::controller::undo_records::{lemma_popped, local_work_keeps_stacks, stacks_primitive};
use vstd::prelude::*;

verus! {

/// What a transaction made here does: it is carried out at once, on the
/// grid as it is, and then kept or put aside as `finalized` says. The
/// summary names the transaction and carries its edits once it is
/// complete.
pub open spec fn local_transaction(
    c: ControllerView,
    id: u128,
    transaction_type: TransactionType,
    operations: Seq<Operation>,
    cursor: Option<String>,
) -> (ControllerView, SummaryView) {
    let (c1, t1) = started(c, PendingView::new(id, transaction_type, operations, cursor));
    (finalized(c1, t1), t1.prepare_summary(t1.complete, uuid_text(id)))
}

/// The edits that give every cell of `rect` on the sheet `sheet_id` the
/// display size `size`: column by column, and top to bottom in each.
pub open spec fn output_size_ops(
    sheet_id: SheetId,
    rect: Rect,
    size: Option<OutputSize>,
    x: int,
    y: int,
) -> Seq<Operation>
    decreases rect.max.x - x + 1, rect.max.y - y + 1,
{
    if x > rect.max.x || rect.min.y > rect.max.y || y < rect.min.y || x < rect.min.x {
        Seq::empty()
    } else if y > rect.max.y {
        output_size_ops(sheet_id, rect, size, x + 1, rect.min.y as int)
    } else {
        seq![
            Operation::SetOutputSize {
                sheet_pos: SheetPos { x: x as i64, y: y as i64, sheet_id },
                output_size: size,
            },
        ] + output_size_ops(sheet_id, rect, size, x, y + 1)
    }
}

/// The edits with which a user stores `value` in the cell at
/// `sheet_pos` of the grid `g`: the value is stored; if the cell was a
/// code cell with a run, the run is removed and every code cell of the
/// sheet is checked for spills; otherwise the code cells that reach the
/// cell are.
pub open spec fn set_value_ops(g: GridView, sheet_pos: SheetPos, value: CellValue) -> Seq<
    Operation,
> {
    let has_run = match sheet_index(g, sheet_pos.sheet_id) {
        Some(i) => has_key(g[i].code_runs, sheet_pos.spec_pos()),
        None => false,
    };
    if has_run {
        seq![
            Operation::SetCellValue { sheet_pos, value },
            Operation::SetCodeRun { sheet_pos, code_run: None },
            Operation::CheckAllSpills { sheet_id: sheet_pos.sheet_id },
        ]
    } else {
        seq![
            Operation::SetCellValue { sheet_pos, value },
            Operation::CheckSpills {
                sheet_rect: SheetRect {
                    min: sheet_pos.spec_pos(),
                    max: sheet_pos.spec_pos(),
                    sheet_id: sheet_pos.sheet_id,
                },
            },
        ]
    }
}

/// The edits with which a user makes the cell at `sheet_pos` a code
/// cell: the source is stored, a run that is there is removed, and the
/// code is run.
pub open spec fn set_code_ops(sheet_pos: SheetPos, code_cell: CodeCellValue) -> Seq<Operation> {
    seq![
        Operation::SetCellValue { sheet_pos, value: CellValue::Code(code_cell) },
        Operation::SetCodeRun { sheet_pos, code_run: None },
        Operation::ComputeCode { sheet_pos },
    ]
}

/// What undoing does: the edits on top of the undo stack are carried out
/// as a transaction of type `Undo`. With an empty stack nothing happens.
pub open spec fn undone(c: ControllerView, id: u128, cursor: Option<String>) -> (
    ControllerView,
    SummaryView,
) {
    if c.undo_stack.len() == 0 {
        (c, SummaryView::empty())
    } else {
        local_transaction(
            ControllerView { undo_stack: c.undo_stack.drop_last(), ..c },
            id,
            TransactionType::Undo,
            c.undo_stack.last().operations,
            cursor,
        )
    }
}

/// What redoing does: the edits on top of the redo stack are carried out
/// as a transaction of type `Redo`. With an empty stack nothing happens.
pub open spec fn redone(c: ControllerView, id: u128, cursor: Option<String>) -> (
    ControllerView,
    SummaryView,
) {
    if c.redo_stack.len() == 0 {
        (c, SummaryView::empty())
    } else {
        local_transaction(
            ControllerView { redo_stack: c.redo_stack.drop_last(), ..c },
            id,
            TransactionType::Redo,
            c.redo_stack.last().operations,
            cursor,
        )
    }
}

impl GridController {
    /// Carries out `operations` as a transaction of the given type with
    /// the identifier `id`: see [`local_transaction`].
    pub fn start_local_transaction(
        &mut self,
        id: u128,
        transaction_type: TransactionType,
        operations: Vec<Operation>,
        cursor: Option<String>,
    ) -> (summary: TransactionSummary)
        requires
            old(self).grid.wf(),
        ensures
            final(self).grid.wf(),
            (final(self)@, summary@) == local_transaction(
                old(self)@,
                id,
                transaction_type,
                operations@,
                cursor,
            ),
            layered(old(self)@.grid, old(self)@.log.unsaved_transactions)
                && transaction_type.spec_is_local() && started(
                old(self)@,
                PendingView::new(id, transaction_type, operations@, cursor),
            ).1.complete ==> layered(final(self)@.grid, final(self)@.log.unsaved_transactions),
            stacks_primitive(old(self)@) ==> stacks_primitive(final(self)@),
    {
        let mut transaction = PendingTransaction::new(id, transaction_type, operations, cursor);
        proof {
            lemma_run_keeps(self.grid@, transaction@);
            if stacks_primitive(self@) {
                local_work_keeps_stacks(self@, id, transaction_type, operations@, cursor);
            }
            if layered(self@.grid, self@.log.unsaved_transactions)
                && transaction_type.spec_is_local() && started(self@, transaction@).1.complete {
                local_work_is_layered(self@, id, transaction_type, operations@, cursor);
            }
        }
        self.start_transaction(&mut transaction);
        let summary = transaction.prepare_summary(transaction.complete);
        self.finalize_transaction(&mut transaction);
        summary
    }

    /// Carries out `operations` as an edit of the user, under a fresh
    /// identifier.
    pub fn start_user_transaction(&mut self, operations: Vec<Operation>, cursor: Option<String>) -> (summary: TransactionSummary)
        requires
            old(self).grid.wf(),
        ensures
            final(self).grid.wf(),
            exists|id: u128|
                (final(self)@, summary@) == #[trigger] local_transaction(
                    old(self)@,
                    id,
                    TransactionType::User,
                    operations@,
                    cursor,
                ),
            stacks_primitive(old(self)@) ==> stacks_primitive(final(self)@),
    {
        let id = new_uuid();
        self.start_local_transaction(id, TransactionType::User, operations, cursor)
    }

    /// Stores what the text `value` stands for in the cell at `sheet_pos`:
    /// see [`set_value_ops`].
    pub fn set_cell_value(&mut self, sheet_pos: SheetPos, value: String, cursor: Option<String>) -> (summary: TransactionSummary)
        requires
            old(self).grid.wf(),
        ensures
            final(self).grid.wf(),
            exists|id: u128|
                (final(self)@, summary@) == #[trigger] local_transaction(
                    old(self)@,
                    id,
                    TransactionType::User,
                    set_value_ops(old(self).grid@, sheet_pos, CellValue::spec_from_text(value)),
                    cursor,
                ),
            stacks_primitive(old(self)@) ==> stacks_primitive(final(self)@),
    {
        let has_run = match self.grid.try_sheet(sheet_pos.sheet_id) {
            Some(sheet) => sheet.has_code_cell(sheet_pos.pos()),
            None => false,
        };
        let mut operations = Vec::new();
        operations.push(Operation::SetCellValue { sheet_pos, value: CellValue::from_text(value) });
        if has_run {
            operations.push(Operation::SetCodeRun { sheet_pos, code_run: None });
            operations.push(Operation::CheckAllSpills { sheet_id: sheet_pos.sheet_id });
        } else {
            operations.push(
                Operation::CheckSpills { sheet_rect: SheetRect::single_sheet_pos(sheet_pos) },
            );
        }
        assert(operations@ =~= set_value_ops(
            old(self).grid@,
            sheet_pos,
            CellValue::spec_from_text(value),
        ));
        self.start_user_transaction(operations, cursor)
    }

    /// Makes the cell at `sheet_pos` a code cell with the source `code`
    /// in `language`, and runs it: see [`set_code_ops`]. For a language
    /// that runs outside the core the transaction is suspended until
    /// `calculation_complete` brings the result.
    pub fn set_code_cell(
        &mut self,
        sheet_pos: SheetPos,
        language: CodeCellLanguage,
        code: String,
        cursor: Option<String>,
    ) -> (summary: TransactionSummary)
        requires
            old(self).grid.wf(),
        ensures
            final(self).grid.wf(),
            exists|id: u128|
                (final(self)@, summary@) == #[trigger] local_transaction(
                    old(self)@,
                    id,
                    TransactionType::User,
                    set_code_ops(sheet_pos, CodeCellValue { language, code }),
                    cursor,
                ),
            stacks_primitive(old(self)@) ==> stacks_primitive(final(self)@),
    {
        let mut operations = Vec::new();
        operations.push(
            Operation::SetCellValue {
                sheet_pos,
                value: CellValue::Code(CodeCellValue { language, code }),
            },
        );
        operations.push(Operation::SetCodeRun { sheet_pos, code_run: None });
        operations.push(Operation::ComputeCode { sheet_pos });
        assert(operations@ =~= set_code_ops(sheet_pos, CodeCellValue { language, code }));
        self.start_user_transaction(operations, cursor)
    }

    /// Gives every cell of `rect` on the sheet `sheet_id` the display size
    /// `size`, or clears the size where `size` is `None`.
    pub fn set_cell_output_size(
        &mut self,
        sheet_id: SheetId,
        rect: Rect,
        size: Option<OutputSize>,
        cursor: Option<String>,
    ) -> (summary: TransactionSummary)
        requires
            old(self).grid.wf(),
        ensures
            final(self).grid.wf(),
            exists|id: u128|
                (final(self)@, summary@) == #[trigger] local_transaction(
                    old(self)@,
                    id,
                    TransactionType::User,
                    output_size_ops(sheet_id, rect, size, rect.min.x as int, rect.min.y as int),
                    cursor,
                ),
            stacks_primitive(old(self)@) ==> stacks_primitive(final(self)@),
    {
        let mut operations: Vec<Operation> = Vec::new();
        let ghost all = output_size_ops(sheet_id, rect, size, rect.min.x as int, rect.min.y as int);
        if rect.min.y <= rect.max.y && rect.min.x <= rect.max.x {
            let mut x: i64 = rect.min.x;
            let mut y: i64 = rect.min.y;
            let mut done = false;
            while !done
                invariant
                    rect.min.x <= x <= rect.max.x,
                    rect.min.y <= y <= rect.max.y,
                    !done ==> all == operations@ + output_size_ops(
                        sheet_id,
                        rect,
                        size,
                        x as int,
                        y as int,
                    ),
                    done ==> all == operations@,
                decreases
                        rect.max.x - x + if done {
                            0int
                        } else {
                            1int
                        },
                        rect.max.y - y + if done {
                            0int
                        } else {
                            1int
                        },
            {
                let ghost before = operations@;
                operations.push(
                    Operation::SetOutputSize {
                        sheet_pos: SheetPos { x, y, sheet_id },
                        output_size: size,
                    },
                );
                proof {
                    let rest = output_size_ops(sheet_id, rect, size, x as int, y + 1);
                    assert(before + (seq![
                        Operation::SetOutputSize {
                            sheet_pos: SheetPos { x, y, sheet_id },
                            output_size: size,
                        },
                    ] + rest) =~= operations@ + rest);
                }
                if y < rect.max.y {
                    y += 1;
                } else if x < rect.max.x {
                    x += 1;
                    y = rect.min.y;
                } else {
                    done = true;
                    assert(output_size_ops(sheet_id, rect, size, x + 1, rect.min.y as int)
                        =~= Seq::<Operation>::empty());
                    assert(operations@ + Seq::<Operation>::empty() =~= operations@);
                }
            }
        } else {
            assert(all =~= Seq::<Operation>::empty()) by {
                if rect.min.x <= rect.max.x {
                } else {
                }
            }
            assert(operations@ =~= all);
        }
        self.start_user_transaction(operations, cursor)
    }

    /// Undoes the last transaction that can be undone, under the
    /// identifier `id`: see [`undone`].
    pub fn undo_with_id(&mut self, id: u128, cursor: Option<String>) -> (summary:
        TransactionSummary)
        requires
            old(self).grid.wf(),
        ensures
            final(self).grid.wf(),
            (final(self)@, summary@) == undone(old(self)@, id, cursor),
            stacks_primitive(old(self)@) ==> stacks_primitive(final(self)@),
    {
        let ghost stack = self@.undo_stack;
        proof {
            if stacks_primitive(self@) {
                lemma_popped(self@);
            }
        }
        match self.undo_stack.pop() {
            Some(transaction) => {
                assert(self@.undo_stack =~= stack.drop_last());
                assert(transaction@ == stack.last());
                self.start_local_transaction(
                    id,
                    TransactionType::Undo,
                    transaction.operations,
                    cursor,
                )
            },
            None => TransactionSummary::default(),
        }
    }

    /// Undoes the last transaction that can be undone.
    pub fn undo(&mut self, cursor: Option<String>) -> (summary: TransactionSummary)
        requires
            old(self).grid.wf(),
        ensures
            final(self).grid.wf(),
            exists|id: u128| (final(self)@, summary@) == #[trigger] undone(old(self)@, id, cursor),
            stacks_primitive(old(self)@) ==> stacks_primitive(final(self)@),
    {
        let id = new_uuid();
        self.undo_with_id(id, cursor)
    }

    /// Carries out again the last transaction that was undone, under the
    /// identifier `id`: see [`redone`].
    pub fn redo_with_id(&mut self, id: u128, cursor: Option<String>) -> (summary:
        TransactionSummary)
        requires
            old(self).grid.wf(),
        ensures
            final(self).grid.wf(),
            (final(self)@, summary@) == redone(old(self)@, id, cursor),
            stacks_primitive(old(self)@) ==> stacks_primitive(final(self)@),
    {
        let ghost stack = self@.redo_stack;
        proof {
            if stacks_primitive(self@) {
                lemma_popped(self@);
            }
        }
        match self.redo_stack.pop() {
            Some(transaction) => {
                assert(self@.redo_stack =~= stack.drop_last());
                assert(transaction@ == stack.last());
                self.start_local_transaction(
                    id,
                    TransactionType::Redo,
                    transaction.operations,
                    cursor,
                )
            },
            None => TransactionSummary::default(),
        }
    }

    /// Carries out again the last transaction that was undone.
    pub fn redo(&mut self, cursor: Option<String>) -> (summary: TransactionSummary)
        requires
            old(self).grid.wf(),
        ensures
            final(self).grid.wf(),
            exists|id: u128| (final(self)@, summary@) == #[trigger] redone(old(self)@, id, cursor),
            stacks_primitive(old(self)@) ==> stacks_primitive(final(self)@),
    {
        let id = new_uuid();
        self.redo_with_id(id, cursor)
    }
}

} // verus!
