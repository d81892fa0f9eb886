//! Carrying out transactions on the grid.

pub mod execute_move_cells;
pub mod model;
pub mod receive_multiplayer;
pub mod reconcile;
pub mod run_code;
pub mod spills;

use crate::controller::execution::model::{expanding, lemma_step_decreases, performed, run, step};
use crate::controller::grid_controller::{ControllerView, GridController};
use crate::controller::operation::{applies, Operation};
use crate::controller::pending_transaction::{PendingTransaction, PendingView};
use crate::controller::transaction::{
    Transaction, TransactionType, TransactionView, UnsavedTransaction, UnsavedView,
};
use crate::controller::transactions::{async_index, LogView};
use crate::position::SheetId;
use vstd::prelude::*;

verus! {

/// The suspended transactions with `t` among them: in the place of the
/// one with its identifier, or at the end.
pub open spec fn put_async(pending: Seq<PendingView>, t: PendingView) -> Seq<PendingView> {
    match async_index(pending, t.id) {
        Some(i) => pending.update(i, t),
        None => pending.push(t),
    }
}

/// The suspended transactions without the one with the identifier `id`.
pub open spec fn without_async(pending: Seq<PendingView>, id: u128) -> Seq<PendingView> {
    match async_index(pending, id) {
        Some(i) => pending.remove(i),
        None => pending,
    }
}

/// The controller and the transaction after the transaction was carried
/// out as far as it goes: to its end, or to the point where it has to
/// wait. One that waits is put among the suspended transactions; one that
/// has come to its end is marked complete.
pub open spec fn started(c: ControllerView, t: PendingView) -> (ControllerView, PendingView) {
    let (g, t2) = run(c.grid, t);
    if t2.waiting_for_async is Some {
        (
            ControllerView {
                grid: g,
                log: LogView {
                    async_transactions: put_async(c.log.async_transactions, t2),
                    ..c.log
                },
                ..c
            },
            t2,
        )
    } else {
        (ControllerView { grid: g, ..c }, PendingView { complete: true, ..t2 })
    }
}

/// The log with the finished transaction `t` added to those that the
/// sequencer has not acknowledged.
pub open spec fn with_unsaved(log: LogView, t: PendingView) -> LogView {
    LogView {
        unsaved_transactions: log.unsaved_transactions.push(
            UnsavedView {
                id: t.id,
                forward: t.forward_operations,
                reverse: t.reverse_operations,
            },
        ),
        ..log
    }
}

/// The controller after the bookkeeping for the transaction `t`.
///
/// Nothing is kept of a transaction that is not complete, that came from
/// the sequencer, or that changed nothing. A complete transaction that
/// was made here joins the unsaved transactions. Its undoing edits go on
/// the undo stack if it was a user's edit or a redo, and on the redo stack
/// if it was an undo; a user's edit also empties the redo stack. A
/// transaction that had been suspended leaves the suspended ones.
pub open spec fn finalized(c: ControllerView, t: PendingView) -> ControllerView {
    if !t.complete {
        c
    } else {
        let log = LogView {
            async_transactions: if t.has_async {
                without_async(c.log.async_transactions, t.id)
            } else {
                c.log.async_transactions
            },
            ..c.log
        };
        if !t.transaction_type.spec_is_local() || t.forward_operations.len() == 0 {
            ControllerView { log, ..c }
        } else {
            match t.transaction_type {
                TransactionType::User => ControllerView {
                    log: with_unsaved(log, t),
                    undo_stack: c.undo_stack.push(t.reverse()),
                    redo_stack: Seq::empty(),
                    ..c
                },
                TransactionType::Undo => ControllerView {
                    log: with_unsaved(log, t),
                    redo_stack: c.redo_stack.push(t.reverse()),
                    ..c
                },
                _ => ControllerView {
                    log: with_unsaved(log, t),
                    undo_stack: c.undo_stack.push(t.reverse()),
                    ..c
                },
            }
        }
    }
}

impl GridController {
    /// Carries out the primitive edit `op` and records it in
    /// `transaction`, or notes that it was skipped.
    pub fn perform(&mut self, transaction: &mut PendingTransaction, op: Operation)
        requires
            old(self).grid.wf(),
            op.is_primitive(),
        ensures
            (final(self).grid@, final(transaction)@) == performed(
                old(self).grid@,
                old(transaction)@,
                op,
            ),
            final(self).grid.wf(),
            final(self).transactions == old(self).transactions,
            final(self).undo_stack == old(self).undo_stack,
            final(self).redo_stack == old(self).redo_stack,
    {
        let ghost g = self.grid@;
        match self.grid.apply_operation(&op) {
            Some(undo) => {
                let ghost rev = transaction.reverse_operations@;
                transaction.reverse_operations.insert(0, undo);
                assert(transaction.reverse_operations@ =~= seq![undo] + rev);
                transaction.summary.note(&op);
                transaction.sheets_with_dirty_bounds.insert(op.sheet_id());
                transaction.forward_operations.push(op);
                assert(applies(g, op));
            },
            None => {
                transaction.summary.skipped_operations = true;
                assert(!applies(g, op));
            },
        }
    }

    /// Takes the next edit from the queue of `transaction` and carries it out.
    pub fn execute_operation(&mut self, transaction: &mut PendingTransaction)
        requires
            old(self).grid.wf(),
            old(transaction)@.operations.len() > 0,
        ensures
            (final(self).grid@, final(transaction)@) == step(
                old(self).grid@,
                old(transaction)@,
            ),
            final(self).grid.wf(),
            final(self).transactions == old(self).transactions,
            final(self).undo_stack == old(self).undo_stack,
            final(self).redo_stack == old(self).redo_stack,
    {
        let ghost g = self.grid@;
        let ghost t = transaction@;
        let op = transaction.operations.pop_front().unwrap();
        assert(transaction.operations@ =~= t.operations.drop_first());
        match op {
            Operation::MoveCells { .. } => {
                self.execute_move_cells(transaction, op);
            },
            Operation::ComputeCode { sheet_pos } => {
                self.execute_compute_code(transaction, sheet_pos);
            },
            Operation::CheckSpills { sheet_rect } => {
                self.check_spills(transaction, &sheet_rect);
            },
            Operation::CheckAllSpills { sheet_id } => {
                self.check_all_spills(transaction, sheet_id, 0);
            },
            _ => {
                self.perform(transaction, op);
            },
        }
    }

    /// Carries out `transaction` as far as it goes: to its end, or to the
    /// point where it has to wait for a result.
    pub fn start_transaction(&mut self, transaction: &mut PendingTransaction)
        requires
            old(self).grid.wf(),
        ensures
            (final(self)@, final(transaction)@) == started(old(self)@, old(transaction)@),
            final(self).grid.wf(),
            final(self).transactions.last_sequence_num == old(self).transactions.last_sequence_num,
            final(self).transactions.unsaved_transactions == old(self).transactions.unsaved_transactions,
            final(self).transactions.out_of_order_transactions == old(self).transactions.out_of_order_transactions,
            final(self).transactions.last_get_transactions_time == old(self).transactions.last_get_transactions_time,
            final(self).undo_stack == old(self).undo_stack,
            final(self).redo_stack == old(self).redo_stack,
    {
        while transaction.operations.len() > 0 && transaction.waiting_for_async.is_none()
            invariant
                self.grid.wf(),
                run(self.grid@, transaction@) == run(old(self).grid@, old(transaction)@),
                self.transactions == old(self).transactions,
                self.undo_stack == old(self).undo_stack,
                self.redo_stack == old(self).redo_stack,
            decreases expanding(transaction@.operations), transaction@.operations.len(),
        {
            proof {
                lemma_step_decreases(self.grid@, transaction@);
            }
            self.execute_operation(transaction);
        }
        if transaction.waiting_for_async.is_some() {
            let copy = transaction.clone();
            let ghost before = self.transactions.async_transactions@;
            match self.transactions.find_async_transaction(transaction.id) {
                Some(i) => {
                    self.transactions.async_transactions[i] = copy;
                    assert(self.transactions.async_transactions@.map_values(
                        |t: PendingTransaction| t@,
                    ) =~= before.map_values(|t: PendingTransaction| t@).update(
                        i as int,
                        transaction@,
                    ));
                },
                None => {
                    self.transactions.async_transactions.push(copy);
                    assert(self.transactions.async_transactions@.map_values(
                        |t: PendingTransaction| t@,
                    ) =~= before.map_values(|t: PendingTransaction| t@).push(transaction@));
                },
            }
        } else {
            transaction.complete = true;
        }
    }

    /// Does the bookkeeping for a transaction that was carried out: see
    /// [`finalized`].
    pub fn finalize_transaction(&mut self, transaction: &mut PendingTransaction)
        requires
            old(self).grid.wf(),
        ensures
            final(self)@ == finalized(old(self)@, old(transaction)@),
            final(self).grid.wf(),
            old(transaction)@.complete ==> forall|id: SheetId|
                old(transaction)@.sheets_with_dirty_bounds.contains(id) ==> final(self).grid.bounds_current(id),
            final(transaction)@ == (PendingView {
                sheets_with_dirty_bounds: if old(transaction)@.complete {
                    Set::empty()
                } else {
                    old(transaction)@.sheets_with_dirty_bounds
                },
                ..old(transaction)@
            }),
    {
        if !transaction.complete {
            return ;
        }
        self.recalculate_sheet_bounds(transaction);
        if transaction.has_async {
            let ghost before = self.transactions.async_transactions@;
            match self.transactions.find_async_transaction(transaction.id) {
                Some(i) => {
                    self.transactions.async_transactions.remove(i);
                    assert(self.transactions.async_transactions@.map_values(
                        |t: PendingTransaction| t@,
                    ) =~= before.map_values(|t: PendingTransaction| t@).remove(i as int));
                },
                None => {},
            }
        }
        if !transaction.transaction_type.is_local() || transaction.forward_operations.len() == 0 {
            return ;
        }
        let ghost unsaved = self.transactions.unsaved_transactions@;
        let entry = UnsavedTransaction {
            forward: transaction.to_forward_transaction(),
            reverse: transaction.to_undo_transaction(),
        };
        self.transactions.unsaved_transactions.push(entry);
        assert(self.transactions.unsaved_transactions@.map_values(|u: UnsavedTransaction| u@)
            =~= unsaved.map_values(|u: UnsavedTransaction| u@).push(
            UnsavedView {
                id: transaction@.id,
                forward: transaction@.forward_operations,
                reverse: transaction@.reverse_operations,
            },
        ));
        let ghost undo = self.undo_stack@;
        let ghost redo = self.redo_stack@;
        match transaction.transaction_type {
            TransactionType::User => {
                self.undo_stack.push(transaction.to_undo_transaction());
                self.redo_stack.clear();
                assert(self.undo_stack@.map_values(|t: Transaction| t@) =~= undo.map_values(
                    |t: Transaction| t@,
                ).push(transaction@.reverse()));
                assert(self.redo_stack@.map_values(|t: Transaction| t@) =~= Seq::<
                    TransactionView,
                >::empty());
            },
            TransactionType::Undo => {
                self.redo_stack.push(transaction.to_undo_transaction());
                assert(self.redo_stack@.map_values(|t: Transaction| t@) =~= redo.map_values(
                    |t: Transaction| t@,
                ).push(transaction@.reverse()));
            },
            _ => {
                self.undo_stack.push(transaction.to_undo_transaction());
                assert(self.undo_stack@.map_values(|t: Transaction| t@) =~= undo.map_values(
                    |t: Transaction| t@,
                ).push(transaction@.reverse()));
            },
        }
    }

    /// Brings the bounds of the sheets that `transaction` changed up to
    /// date. What the sheets hold stays as it is.
    pub fn recalculate_sheet_bounds(&mut self, transaction: &mut PendingTransaction)
        requires
            old(self).grid.wf(),
        ensures
            final(self)@ == old(self)@,
            final(self).transactions == old(self).transactions,
            final(self).undo_stack == old(self).undo_stack,
            final(self).redo_stack == old(self).redo_stack,
            final(self).grid.wf(),
            forall|id: SheetId|
                old(transaction)@.sheets_with_dirty_bounds.contains(id) ==> final(self).grid.bounds_current(id),
            final(transaction)@ == (PendingView {
                sheets_with_dirty_bounds: Set::empty(),
                ..old(transaction)@
            }),
    {
        let ids = transaction.sheets_with_dirty_bounds.drain();
        let mut i: usize = 0;
        while i < ids.len()
            invariant
                i <= ids.len(),
                self.grid.wf(),
                self@ == old(self)@,
                self.transactions == old(self).transactions,
                self.undo_stack == old(self).undo_stack,
                self.redo_stack == old(self).redo_stack,
                forall|k: int| 0 <= k < i ==> self.grid.bounds_current(#[trigger] ids@[k]),
            decreases ids.len() - i,
        {
            let ghost before = self.grid;
            self.grid.recalculate_bounds(ids[i]);
            assert forall|k: int| 0 <= k < i + 1 implies self.grid.bounds_current(
                #[trigger] ids@[k],
            ) by {
                if k < i {
                    assert(before.bounds_current(ids@[k]));
                    match crate::grid::sheet_index(self.grid@, ids@[k]) {
                        Some(j) => {
                            assert(crate::grid::is_first_sheet(self.grid@, ids@[k], j));
                            if crate::grid::sheet_index(self.grid@, ids@[i as int]) != Some(j) {
                                assert(self.grid.bounds_at(j) == before.bounds_at(j));
                            } else {
                                assert(crate::grid::is_first_sheet(
                                    self.grid@,
                                    ids@[i as int],
                                    j,
                                ));
                            }
                        },
                        None => {},
                    }
                }
            }
            i += 1;
        }
        assert forall|id: SheetId|
            old(transaction)@.sheets_with_dirty_bounds.contains(id) implies self.grid.bounds_current(
            id,
        ) by {
            assert(ids@.to_set().contains(id));
            let k = choose|k: int| 0 <= k < ids@.len() && ids@[k] == id;
            assert(self.grid.bounds_current(ids@[k]));
        }
    }

    /// Sets the sequence number up to which the transactions of the
    /// sequencer count as carried out. For use when the document is
    /// loaded at that point only.
    pub fn set_last_sequence_num(&mut self, last_sequence_num: u64)
        ensures
            *final(self) == (GridController {
                transactions: crate::controller::transactions::ActiveTransactions {
                    last_sequence_num,
                    ..old(self).transactions
                },
                ..*old(self)
            }),
    {
        self.transactions.last_sequence_num = last_sequence_num;
    }

    /// The transactions that wait for the result of a computation.
    pub fn async_transactions(&self) -> (r: &[PendingTransaction])
        ensures
            r@ == self.transactions.async_transactions@,
    {
        self.transactions.async_transactions()
    }
}

} // verus!
