//! Receiving what the sequencer sends.

use crate::controller::execution::reconcile::{
    applied_out_of_order, batch_applied, client_applied, core_applied, drain, incoming,
    is_insert_index, lemma_insert_index, lower_than, reapplied, reapplied_from, reapplied_one,
    received_batch, rollback_ops, rolled_back, without_ids, without_own, ServerTransactionView,
};
use crate::controller::execution::{finalized, started};
use crate::controller::grid_controller::{ControllerView, GridController};
use crate::controller::guarantees::receipt_keeps_layers;
use crate::controller::layers::layered;
use crate::controller::log_order::{lemma_last_never_falls, log_stays_in_order};
use crate::controller::operation::Operation;
use crate::controller::pending_transaction::PendingTransaction;
use crate::controller::transaction::{
    Transaction, TransactionServer, TransactionType, UnsavedTransaction, UnsavedView,
};
use crate::controller::transaction_summary::{
    clone_operations, SummaryView, TransactionSummary,
};
use crate::controller::transactions::{unsaved_index, LogView};
use crate::outside::utc_now_millis;
use crate::controller::batches::batch_is_like_one_by_one;
use crate::controller::undo_records::{batch_leaves_stacks, receipt_leaves_stacks, stacks_primitive};
use vstd::prelude::*;

verus! {

/// How long to wait for transactions that were asked for before asking again.
pub const SECONDS_TO_WAIT_FOR_GET_TRANSACTIONS: i64 = 5;

/// Why a call into the controller was refused.
#[derive(Debug, PartialEq, Eq, Structural)]
pub enum CoreError {
    /// The text does not spell the identifier of a transaction.
    InvalidTransactionId,
    /// No suspended transaction has the identifier.
    TransactionNotFound,
}

impl View for TransactionServer {
    type V = ServerTransactionView;

    open spec fn view(&self) -> ServerTransactionView {
        ServerTransactionView {
            file_id: self.file_id,
            id: self.id,
            sequence_num: self.sequence_num,
            operations: self.operations@,
        }
    }
}

/// Adds copies of the edits of `source` to the end of `target`.
pub fn append_operations(target: &mut Vec<Operation>, source: &Vec<Operation>)
    ensures
        final(target)@ == old(target)@ + source@,
{
    let mut i: usize = 0;
    while i < source.len()
        invariant
            i <= source.len(),
            target@ == old(target)@ + source@.subrange(0, i as int),
        decreases source.len() - i,
    {
        target.push(source[i].clone());
        i += 1;
        assert(target@ =~= old(target)@ + source@.subrange(0, i as int));
    }
    assert(source@.subrange(0, i as int) =~= source@);
}

/// Whether the sequencer is to be asked for its transactions at the time
/// `now`, given when it was last asked: if it never was, or if the time
/// to wait has passed since. Times are in milliseconds.
pub open spec fn may_request(last_request: Option<i64>, now: i64) -> bool {
    match last_request {
        None => true,
        Some(last) => last + SECONDS_TO_WAIT_FOR_GET_TRANSACTIONS * 1000 <= i64::MAX && last
            + SECONDS_TO_WAIT_FOR_GET_TRANSACTIONS * 1000 < now,
    }
}

/// What an announcement of the sequencer's number `sequence_num` at the
/// time `now` does: if the number is ahead of the log and the sequencer
/// may be asked, the time is noted and the transactions from the next
/// number on are asked for. Otherwise nothing changes.
pub open spec fn announced(c: ControllerView, sequence_num: u64, now: i64) -> (
    ControllerView,
    SummaryView,
) {
    if sequence_num > c.log.last_sequence_num && may_request(
        c.log.last_get_transactions_time,
        now,
    ) {
        (
            ControllerView {
                log: LogView { last_get_transactions_time: Some(now), ..c.log },
                ..c
            },
            SummaryView {
                request_transactions: Some((c.log.last_sequence_num + 1) as u64),
                ..SummaryView::empty()
            },
        )
    } else {
        (c, SummaryView::empty())
    }
}

impl GridController {
    /// Takes in a transaction that the sequencer sent with the number
    /// `sequence_num`, and returns what changed.
    pub fn received_transaction(
        &mut self,
        transaction_id: u128,
        sequence_num: u64,
        operations: Vec<Operation>,
    ) -> (summary: TransactionSummary)
        requires
            old(self).grid.wf(),
        ensures
            final(self).grid.wf(),
            ({
                let (c, t) = client_applied(
                    old(self)@,
                    incoming(transaction_id, operations@),
                    sequence_num,
                );
                final(self)@ == finalized(c, t) && summary@ == t.prepare_summary(
                    false,
                    Seq::empty(),
                )
            }),
            layered(old(self)@.grid, old(self)@.log.unsaved_transactions) ==> layered(
                final(self)@.grid,
                final(self)@.log.unsaved_transactions,
            ),
            final(self)@.undo_stack == old(self)@.undo_stack,
            final(self)@.redo_stack == old(self)@.redo_stack,
            stacks_primitive(old(self)@) ==> stacks_primitive(final(self)@),
    {
        let mut transaction = PendingTransaction::new(
            transaction_id,
            TransactionType::Multiplayer,
            operations,
            None,
        );
        proof {
            if layered(self@.grid, self@.log.unsaved_transactions) {
                receipt_keeps_layers(self@, transaction_id, operations@, sequence_num);
            }
            receipt_leaves_stacks(self@, transaction_id, operations@, sequence_num);
        }
        self.client_apply_transaction(&mut transaction, sequence_num);
        self.finalize_transaction(&mut transaction);
        transaction.prepare_summary_with(false, String::new())
    }

    /// Takes back the unsaved transactions, so that transactions of the
    /// sequencer can be carried out underneath them.
    pub fn rollback_unsaved_transactions(&mut self, transaction: &mut PendingTransaction)
        requires
            old(self).grid.wf(),
        ensures
            final(self).grid.wf(),
            (final(self)@, final(transaction)@) == rolled_back(old(self)@, old(transaction)@),
    {
        if self.transactions.unsaved_transactions.len() == 0 {
            return ;
        }
        let ghost unsaved = self@.log.unsaved_transactions;
        let mut operations: Vec<Operation> = Vec::new();
        let mut i: usize = self.transactions.unsaved_transactions.len();
        assert(unsaved.subrange(0, i as int) =~= unsaved);
        while i > 0
            invariant
                i <= self.transactions.unsaved_transactions.len(),
                unsaved == self@.log.unsaved_transactions,
                operations@ + rollback_ops(unsaved.subrange(0, i as int)) == rollback_ops(unsaved),
            decreases i,
        {
            let ghost part = unsaved.subrange(0, i as int);
            let ghost done = operations@;
            i -= 1;
            append_operations(
                &mut operations,
                &self.transactions.unsaved_transactions[i].reverse.operations,
            );
            proof {
                assert(part.last() == unsaved[i as int]);
                assert(part.drop_last() =~= unsaved.subrange(0, i as int));
                assert(operations@ + rollback_ops(unsaved.subrange(0, i as int)) =~= done
                    + rollback_ops(part));
            }
        }
        assert(operations@ =~= rollback_ops(unsaved));
        let mut rollback = PendingTransaction::new(
            0,
            TransactionType::Multiplayer,
            operations,
            None,
        );
        self.start_transaction(&mut rollback);
        transaction.absorb(&rollback);
    }

    /// Carries the unsaved transactions out again after transactions of
    /// the sequencer were carried out underneath them, and notes for each
    /// the edits that undo it now.
    pub fn reapply_unsaved_transactions(&mut self, transaction: &mut PendingTransaction)
        requires
            old(self).grid.wf(),
        ensures
            final(self).grid.wf(),
            (final(self)@, final(transaction)@) == reapplied(old(self)@, old(transaction)@),
    {
        let n = self.transactions.unsaved_transactions.len();
        let mut i: usize = 0;
        while i < n
            invariant
                i <= n,
                n == self.transactions.unsaved_transactions.len(),
                self.grid.wf(),
                reapplied_from(self@, transaction@, i as int) == reapplied(
                    old(self)@,
                    old(transaction)@,
                ),
            decreases n - i,
        {
            let ghost c = self@;
            let ghost u = c.log.unsaved_transactions[i as int];
            let entry = &self.transactions.unsaved_transactions[i];
            let mut again = PendingTransaction::new(
                entry.forward.id,
                TransactionType::Multiplayer,
                clone_operations(&entry.forward.operations),
                None,
            );
            self.start_transaction(&mut again);
            let ghost before = self.transactions.unsaved_transactions@;
            self.transactions.unsaved_transactions[i].reverse.operations = clone_operations(
                &again.reverse_operations,
            );
            transaction.absorb(&again);
            proof {
                assert(self.transactions.unsaved_transactions@.map_values(
                    |u: UnsavedTransaction| u@,
                ) =~= before.map_values(|u: UnsavedTransaction| u@).update(
                    i as int,
                    UnsavedView { reverse: again@.reverse_operations, ..u },
                ));
                assert(self@ == reapplied_one(c, i as int).0);
            }
            i += 1;
        }
    }

    /// Used where the sequencer itself holds the grid: it orders the
    /// transactions, so they are carried out as they come.
    pub fn server_apply_transaction(&mut self, operations: Vec<Operation>)
        requires
            old(self).grid.wf(),
        ensures
            final(self).grid.wf(),
            final(self)@ == started(old(self)@, incoming(0, operations@)).0,
    {
        let mut transaction = PendingTransaction::new(
            0,
            TransactionType::Multiplayer,
            operations,
            None,
        );
        self.start_transaction(&mut transaction);
    }

    /// Takes in the sequence number that the sequencer announces, at the
    /// time `now` in milliseconds since the Unix epoch: see [`announced`].
    pub fn receive_sequence_num_at(&mut self, sequence_num: u64, now: i64) -> (summary:
        TransactionSummary)
        ensures
            (final(self)@, summary@) == announced(old(self)@, sequence_num, now),
            final(self).grid == old(self).grid,
    {
        let mut summary = TransactionSummary::default();
        if sequence_num > self.transactions.last_sequence_num {
            let may = match self.transactions.last_get_transactions_time {
                None => true,
                Some(last) => {
                    match last.checked_add(SECONDS_TO_WAIT_FOR_GET_TRANSACTIONS * 1000) {
                        Some(until) => until < now,
                        None => false,
                    }
                },
            };
            if may {
                self.transactions.last_get_transactions_time = Some(now);
                summary.request_transactions = Some(self.transactions.last_sequence_num + 1);
            }
        }
        summary
    }

    /// Takes in the sequence number that the sequencer announces. If it is
    /// ahead of the log, the summary asks for the missing transactions,
    /// unless they were asked for a moment ago.
    pub fn receive_sequence_num(&mut self, sequence_num: u64) -> (summary: TransactionSummary)
        ensures
            exists|now: i64|
                (final(self)@, summary@) == #[trigger] announced(old(self)@, sequence_num, now),
            final(self).grid == old(self).grid,
    {
        let now = utc_now_millis();
        self.receive_sequence_num_at(sequence_num, now)
    }

    /// Carries out the waiting transactions that follow `sequence_num`
    /// without a gap, and moves the last sequence number of the log on.
    pub fn apply_out_of_order_transactions(
        &mut self,
        transaction: &mut PendingTransaction,
        sequence_num: u64,
    )
        requires
            old(self).grid.wf(),
        ensures
            final(self).grid.wf(),
            (final(self)@, final(transaction)@) == applied_out_of_order(
                old(self)@,
                old(transaction)@,
                sequence_num,
            ),
    {
        let ghost buffer = self@.log.out_of_order_transactions;
        let ghost unsaved = self@.log.unsaved_transactions;
        let mut operations: Vec<Operation> = Vec::new();
        let mut current = sequence_num;
        let ghost mut taken: Seq<u128> = Seq::empty();
        loop
            invariant
                self.grid == old(self).grid,
                self.undo_stack == old(self).undo_stack,
                self.redo_stack == old(self).redo_stack,
                self.transactions.last_sequence_num == old(self).transactions.last_sequence_num,
                self@.log.unsaved_transactions == without_ids(unsaved, taken),
                self.transactions.async_transactions == old(
                    self,
                ).transactions.async_transactions,
                self.transactions.last_get_transactions_time == old(
                    self,
                ).transactions.last_get_transactions_time,
                drain(buffer, sequence_num) == ({
                    let (rest, ops, last, ids) = drain(
                        self@.log.out_of_order_transactions,
                        current,
                    );
                    (rest, operations@ + ops, last, taken + ids)
                }),
            ensures
                drain(buffer, sequence_num) == (
                    self@.log.out_of_order_transactions,
                    operations@,
                    current,
                    taken,
                ),
                self.grid == old(self).grid,
                self.undo_stack == old(self).undo_stack,
                self.redo_stack == old(self).redo_stack,
                self.transactions.last_sequence_num == old(self).transactions.last_sequence_num,
                self@.log.unsaved_transactions == without_ids(unsaved, taken),
                self.transactions.async_transactions == old(
                    self,
                ).transactions.async_transactions,
                self.transactions.last_get_transactions_time == old(
                    self,
                ).transactions.last_get_transactions_time,
            decreases self.transactions.out_of_order_transactions.len(),
        {
            let n = self.transactions.out_of_order_transactions.len();
            let ghost waiting = self@.log.out_of_order_transactions;
            let ghost done = operations@;
            let ghost before = taken;
            if n == 0 {
                assert(operations@ + Seq::<Operation>::empty() =~= operations@);
                assert(taken + Seq::<u128>::empty() =~= taken);
                break ;
            }
            let (take, own) = match self.transactions.out_of_order_transactions[n - 1].sequence_num {
                Some(s) => {
                    if s <= current {
                        (true, None)
                    } else if current < u64::MAX && s == current + 1 {
                        append_operations(
                            &mut operations,
                            &self.transactions.out_of_order_transactions[n - 1].operations,
                        );
                        current = s;
                        (true, Some(self.transactions.out_of_order_transactions[n - 1].id))
                    } else {
                        (false, None)
                    }
                },
                None => (true, None),
            };
            if !take {
                assert(operations@ + Seq::<Operation>::empty() =~= operations@);
                assert(taken + Seq::<u128>::empty() =~= taken);
                break ;
            }
            match own {
                Some(id) => {
                    self.forget_unsaved(id);
                    proof {
                        taken = taken.push(id);
                        assert(taken.drop_last() =~= before);
                    }
                },
                None => {},
            }
            self.transactions.out_of_order_transactions.pop();
            proof {
                assert(self@.log.out_of_order_transactions =~= waiting.drop_last());
                let (rest, ops, last, ids) = drain(waiting.drop_last(), current);
                assert(done + (waiting.last().operations + ops) =~= (done
                    + waiting.last().operations) + ops);
                assert(before + (seq![waiting.last().id] + ids) =~= before.push(
                    waiting.last().id,
                ) + ids);
            }
        }
        let mut waiting = PendingTransaction::new(
            0,
            TransactionType::Multiplayer,
            operations,
            None,
        );
        self.start_transaction(&mut waiting);
        transaction.absorb(&waiting);
        self.transactions.last_sequence_num = current;
    }

    /// Takes the first unsaved transaction with the identifier `id`, if
    /// there is one, out of the unsaved ones.
    pub fn forget_unsaved(&mut self, id: u128) -> (found: bool)
        ensures
            final(self)@ == (ControllerView {
                log: LogView {
                    unsaved_transactions: without_own(old(self)@.log.unsaved_transactions, id),
                    ..old(self)@.log
                },
                ..old(self)@
            }),
            final(self).grid == old(self).grid,
            final(self).undo_stack == old(self).undo_stack,
            final(self).redo_stack == old(self).redo_stack,
            final(self).transactions.last_sequence_num == old(
                self,
            ).transactions.last_sequence_num,
            final(self).transactions.out_of_order_transactions == old(
                self,
            ).transactions.out_of_order_transactions,
            final(self).transactions.async_transactions == old(
                self,
            ).transactions.async_transactions,
            final(self).transactions.last_get_transactions_time == old(
                self,
            ).transactions.last_get_transactions_time,
            found == (unsaved_index(old(self)@.log.unsaved_transactions, id) is Some),
    {
        let own = match self.transactions.find_unsaved_transaction(id) {
            Some((index, _)) => Some(index),
            None => None,
        };
        match own {
            Some(index) => {
                let ghost before = self.transactions.unsaved_transactions@;
                self.transactions.unsaved_transactions.remove(index);
                assert(self.transactions.unsaved_transactions@.map_values(
                    |u: UnsavedTransaction| u@,
                ) =~= before.map_values(|u: UnsavedTransaction| u@).remove(index as int));
                true
            },
            None => false,
        }
    }

    /// What a transaction of the sequencer does once unsaved work is out
    /// of the way: see [`core_applied`].
    pub fn apply_sequenced_transaction(
        &mut self,
        transaction: &mut PendingTransaction,
        sequence_num: u64,
    )
        requires
            old(self).grid.wf(),
        ensures
            final(self).grid.wf(),
            (final(self)@, final(transaction)@) == core_applied(
                old(self)@,
                old(transaction)@,
                sequence_num,
            ),
    {
        let last = self.transactions.last_sequence_num;
        if last < u64::MAX && sequence_num == last + 1 {
            let own = self.forget_unsaved(transaction.id);
            self.start_transaction(transaction);
            self.apply_out_of_order_transactions(transaction, sequence_num);
            if !own && self.transactions.unsaved_transactions.len() == 0 {
                transaction.summary.generate_thumbnail = false;
            }
        } else if sequence_num > last {
            let n = self.transactions.out_of_order_transactions.len();
            let mut index: usize = 0;
            let mut found = false;
            while index < n && !found
                invariant
                    index <= n,
                    n == self.transactions.out_of_order_transactions.len(),
                    *self == *old(self),
                    forall|j: int|
                        0 <= j < index ==> !lower_than(
                            (#[trigger] self@.log.out_of_order_transactions[j]).sequence_num,
                            sequence_num,
                        ),
                    found ==> index < n && lower_than(
                        self@.log.out_of_order_transactions[index as int].sequence_num,
                        sequence_num,
                    ),
                decreases n - index + if found { 0int } else { 1int },
            {
                let lower = match self.transactions.out_of_order_transactions[index].sequence_num {
                    Some(s) => s < sequence_num,
                    None => false,
                };
                if lower {
                    found = true;
                } else {
                    index += 1;
                }
            }
            proof {
                assert(is_insert_index(
                    self@.log.out_of_order_transactions,
                    sequence_num,
                    index as int,
                ));
                lemma_insert_index(self@.log.out_of_order_transactions, sequence_num, index as int);
            }
            let ghost before = self.transactions.out_of_order_transactions@;
            let entry = transaction.to_transaction(Some(sequence_num));
            self.transactions.out_of_order_transactions.insert(index, entry);
            assert(self.transactions.out_of_order_transactions@.map_values(|t: Transaction| t@)
                =~= before.map_values(|t: Transaction| t@).insert(
                index as int,
                transaction@.to_transaction(Some(sequence_num)),
            ));
        }
    }

    /// Takes in a transaction of the sequencer so that the transactions
    /// take effect in the order of their numbers: see [`client_applied`].
    pub fn client_apply_transaction(
        &mut self,
        transaction: &mut PendingTransaction,
        sequence_num: u64,
    )
        requires
            old(self).grid.wf(),
        ensures
            final(self).grid.wf(),
            (final(self)@, final(transaction)@) == client_applied(
                old(self)@,
                old(transaction)@,
                sequence_num,
            ),
            old(self)@.log.wf() ==> final(self)@.log.wf(),
            final(self)@.log.last_sequence_num >= old(self)@.log.last_sequence_num,
    {
        proof {
            if self@.log.wf() {
                log_stays_in_order(self@, transaction@, sequence_num);
            } else {
                lemma_last_never_falls(self@, transaction@, sequence_num);
            }
        }
        let last = self.transactions.last_sequence_num;
        if last < u64::MAX && sequence_num == last + 1 {
            self.rollback_unsaved_transactions(transaction);
            self.apply_sequenced_transaction(transaction, sequence_num);
            self.reapply_unsaved_transactions(transaction);
        } else {
            self.apply_sequenced_transaction(transaction, sequence_num);
        }
    }

    /// Takes in a batch of transactions that the sequencer sent: see
    /// [`received_batch`]. The summary is that of all of them together.
    pub fn received_transactions(&mut self, transactions: &[TransactionServer]) -> (r: Result<
        TransactionSummary,
        CoreError,
    >)
        requires
            old(self).grid.wf(),
        ensures
            final(self).grid.wf(),
            r is Ok,
            ({
                let (c, t) = received_batch(
                    old(self)@,
                    transactions@.map_values(|t: TransactionServer| t@),
                );
                final(self)@ == finalized(c, t) && r->Ok_0@ == t.prepare_summary(
                    false,
                    Seq::empty(),
                )
            }),
            layered(old(self)@.grid, old(self)@.log.unsaved_transactions) ==> layered(
                final(self)@.grid,
                final(self)@.log.unsaved_transactions,
            ),
            final(self)@.undo_stack == old(self)@.undo_stack,
            final(self)@.redo_stack == old(self)@.redo_stack,
            stacks_primitive(old(self)@) ==> stacks_primitive(final(self)@),
    {
        let ghost batch = transactions@.map_values(|t: TransactionServer| t@);
        proof {
            batch_leaves_stacks(self@, batch);
            if layered(self@.grid, self@.log.unsaved_transactions) {
                batch_is_like_one_by_one(self@, batch);
                let (c, t) = received_batch(self@, batch);
                assert(finalized(c, t).grid == c.grid);
                assert(finalized(c, t).log.unsaved_transactions == c.log.unsaved_transactions);
            }
        }
        let mut results = PendingTransaction::new(
            0,
            TransactionType::Multiplayer,
            Vec::new(),
            None,
        );
        self.rollback_unsaved_transactions(&mut results);
        let ghost c1 = self@;
        let ghost r1 = results@;
        let mut i: usize = 0;
        while i < transactions.len()
            invariant
                i <= transactions.len(),
                self.grid.wf(),
                batch == transactions@.map_values(|t: TransactionServer| t@),
                batch_applied(self@, results@, batch, i as int) == batch_applied(
                    c1,
                    r1,
                    batch,
                    0,
                ),
            decreases transactions.len() - i,
        {
            let t = &transactions[i];
            let mut transaction = PendingTransaction::new(
                t.id,
                TransactionType::Multiplayer,
                clone_operations(&t.operations),
                None,
            );
            self.apply_sequenced_transaction(&mut transaction, t.sequence_num);
            results.absorb(&transaction);
            i += 1;
        }
        self.reapply_unsaved_transactions(&mut results);
        results.complete = true;
        self.finalize_transaction(&mut results);
        Ok(results.prepare_summary_with(false, String::new()))
    }
}

} // verus!
