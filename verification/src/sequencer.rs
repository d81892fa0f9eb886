//! The sequencer: it holds the grid as the order of its transactions
//! makes it, and gives every transaction that comes in the next number.

use crate::controller::execution::model::run;
use crate::controller::any_order::sequenced;
use crate::controller::execution::reconcile::{
    client_applied, drain, helper, incoming, rollback_ops, ServerTransactionView,
};
use crate::controller::execution::started;
use crate::controller::grid_controller::{ControllerView, GridController};
use crate::controller::guarantees::{lemma_run_similar, next_transaction_goes_underneath};
use crate::controller::layers::{base, layered, lemma_started_remote};
use crate::controller::operation::Operation;
use crate::controller::transaction::{Transaction, TransactionServer, TransactionView};
use crate::controller::transaction_summary::clone_operations;
use crate::grid::GridView;
use vstd::prelude::*;

verus! {

/// The state of a sequencer.
pub struct SequencerView {
    pub controller: ControllerView,
    pub transactions: Seq<TransactionView>,
}

impl SequencerView {
    /// The transactions carry the numbers 1, 2, 3 and so on, in order.
    pub open spec fn wf(self) -> bool {
        forall|i: int|
            0 <= i < self.transactions.len() ==> (#[trigger] self.transactions[i]).sequence_num
                == Some((i + 1) as u64)
    }

    /// The number of the last transaction.
    pub open spec fn sequence_num(self) -> int {
        self.transactions.len() as int
    }
}

/// The sequencer of one file.
pub struct Sequencer {
    pub controller: GridController,
    pub transactions: Vec<Transaction>,
}

impl View for Sequencer {
    type V = SequencerView;

    open spec fn view(&self) -> SequencerView {
        SequencerView {
            controller: self.controller@,
            transactions: self.transactions@.map_values(|t: Transaction| t@),
        }
    }
}

impl Sequencer {
    /// A sequencer that starts from `controller` and has ordered nothing yet.
    pub fn new(controller: GridController) -> (r: Self)
        ensures
            r@.controller == controller@,
            r@.transactions == Seq::<TransactionView>::empty(),
            r@.wf(),
    {
        let r = Sequencer { controller, transactions: Vec::new() };
        assert(r@.transactions =~= Seq::<TransactionView>::empty());
        r
    }

    /// Whether the sequencer is in order: the grid is, there is room for
    /// another transaction, and the transactions carry the numbers 1, 2,
    /// 3 and so on.
    pub fn is_valid(&self) -> (r: bool)
        ensures
            r == (self.controller.grid.wf() && self@.wf() && self@.transactions.len()
                < u64::MAX),
    {
        if !self.controller.grid.is_valid() || self.transactions.len() as u64 == u64::MAX {
            return false;
        }
        let mut i: usize = 0;
        while i < self.transactions.len()
            invariant
                i <= self.transactions.len(),
                forall|k: int|
                    0 <= k < i ==> (#[trigger] self@.transactions[k]).sequence_num == Some(
                        (k + 1) as u64,
                    ),
            decreases self.transactions.len() - i,
        {
            let numbered = match self.transactions[i].sequence_num {
                Some(n) => n == i as u64 + 1,
                None => false,
            };
            if !numbered {
                assert(self@.transactions[i as int].sequence_num != Some((i + 1) as u64));
                return false;
            }
            i += 1;
        }
        true
    }

    /// The number of the last transaction.
    pub fn sequence_num(&self) -> (r: u64)
        ensures
            r == self@.sequence_num(),
    {
        self.transactions.len() as u64
    }

    /// Takes in a transaction: it gets the next number and is carried out
    /// at once, as it comes. The number is returned.
    pub fn submit(&mut self, id: u128, operations: Vec<Operation>) -> (sequence_num: u64)
        requires
            old(self).controller.grid.wf(),
            old(self)@.wf(),
            old(self)@.transactions.len() < u64::MAX,
        ensures
            final(self).controller.grid.wf(),
            final(self)@.wf(),
            sequence_num == old(self)@.sequence_num() + 1,
            final(self)@.transactions == old(self)@.transactions.push(
                TransactionView {
                    id,
                    sequence_num: Some(sequence_num),
                    operations: operations@,
                    cursor: None,
                },
            ),
            final(self)@.controller == started(
                old(self)@.controller,
                incoming(0, operations@),
            ).0,
    {
        let sequence_num = self.transactions.len() as u64 + 1;
        let ghost before = self.transactions@;
        self.transactions.push(
            Transaction {
                id,
                sequence_num: Some(sequence_num),
                operations: clone_operations(&operations),
                cursor: None,
            },
        );
        assert(self.transactions@.map_values(|t: Transaction| t@) =~= before.map_values(
            |t: Transaction| t@,
        ).push(
            TransactionView {
                id,
                sequence_num: Some(sequence_num),
                operations: operations@,
                cursor: None,
            },
        ));
        self.controller.server_apply_transaction(operations);
        sequence_num
    }

    /// The transactions from the number `min_sequence_num` on, in order,
    /// for a participant that has fallen behind.
    pub fn transactions_from(&self, file_id: u128, min_sequence_num: u64) -> (r: Vec<
        TransactionServer,
    >)
        requires
            self@.wf(),
        ensures
            r@.len() == if min_sequence_num == 0 {
                self@.transactions.len() as int
            } else if min_sequence_num > self@.transactions.len() {
                0
            } else {
                self@.transactions.len() - min_sequence_num + 1
            },
            forall|k: int|
                0 <= k < r@.len() ==> {
                    let t = self@.transactions[self@.transactions.len() - r@.len() + k];
                    &&& (#[trigger] r@[k]).file_id == file_id
                    &&& r@[k].id == t.id
                    &&& r@[k].operations@ == t.operations
                    &&& Some(r@[k].sequence_num) == t.sequence_num
                    &&& r@[k].sequence_num >= min_sequence_num
                },
    {
        let n = self.transactions.len();
        let start: usize = if min_sequence_num == 0 {
            0
        } else if min_sequence_num > n as u64 {
            n
        } else {
            (min_sequence_num - 1) as usize
        };
        let mut found: Vec<TransactionServer> = Vec::new();
        let mut i: usize = start;
        while i < n
            invariant
                start <= i <= n,
                n == self.transactions.len(),
                self@.wf(),
                start + 1 >= min_sequence_num || start == n,
                found@.len() == i - start,
                forall|k: int|
                    0 <= k < found@.len() ==> {
                        let t = self@.transactions[start + k];
                        &&& (#[trigger] found@[k]).file_id == file_id
                        &&& found@[k].id == t.id
                        &&& found@[k].operations@ == t.operations
                        &&& Some(found@[k].sequence_num) == t.sequence_num
                        &&& found@[k].sequence_num >= min_sequence_num
                    },
            decreases n - i,
        {
            let t = &self.transactions[i];
            assert(self@.transactions[i as int].sequence_num == Some((i + 1) as u64));
            found.push(
                TransactionServer {
                    file_id,
                    id: t.id,
                    sequence_num: (i + 1) as u64,
                    operations: clone_operations(&t.operations),
                },
            );
            i += 1;
        }
        found
    }
}

/// A participant follows the sequencer.
///
/// Let the grid of a participant be layered on what the sequencer
/// holds, let the participant be as far as the sequencer, and let it
/// have nothing waiting. When the sequencer takes in a transaction and
/// the participant then receives it under the number that the sequencer
/// gave it, the grid of the participant is layered on what the sequencer
/// holds again, and the participant is again as far as the sequencer. A
/// participant without unsaved work holds the grid that the sequencer holds.
pub proof fn participant_follows_sequencer(
    sequencer: GridView,
    participant: ControllerView,
    id: u128,
    operations: Seq<Operation>,
    sequence_num: u64,
)
    requires
        layered(participant.grid, participant.log.unsaved_transactions),
        base(participant.grid, participant.log.unsaved_transactions) == sequencer,
        participant.log.out_of_order_transactions.len() == 0,
        sequence_num == participant.log.last_sequence_num + 1,
    ensures
        ({
            let ahead = run(sequencer, incoming(0, operations)).0;
            let after = client_applied(participant, incoming(id, operations), sequence_num).0;
            &&& layered(after.grid, after.log.unsaved_transactions)
            &&& base(after.grid, after.log.unsaved_transactions) == ahead
            &&& after.log.last_sequence_num == sequence_num
            &&& after.log.out_of_order_transactions.len() == 0
            &&& after.log.unsaved_transactions.len() == 0 ==> after.grid == ahead
        }),
{
    next_transaction_goes_underneath(participant, id, operations, sequence_num);
    lemma_run_similar(sequencer, incoming(id, operations), incoming(0, operations));
    let after = client_applied(participant, incoming(id, operations), sequence_num).0;
    let d = drain(
        participant.log.out_of_order_transactions,
        sequence_num,
    );
    assert(d.1 =~= Seq::<Operation>::empty());
    let g1 = run(sequencer, incoming(id, operations)).0;
    assert(run(g1, helper(d.1)).0 == g1);
    if after.log.unsaved_transactions.len() == 0 {
        assert(rollback_ops(
            after.log.unsaved_transactions,
        ) =~= Seq::<Operation>::empty());
    }
}

/// What the sequencer holds after a transaction is the grid that the
/// edits of the transaction lead to.
pub proof fn sequencer_runs_the_transaction(c: ControllerView, operations: Seq<Operation>)
    ensures
        started(c, incoming(0, operations)).0 == (ControllerView {
            grid: run(c.grid, incoming(0, operations)).0,
            ..c
        }),
{
    lemma_started_remote(c, incoming(0, operations));
}

/// The sequencer after it has taken in the transactions `txs[0..n]`.
pub open spec fn submitted(c: ControllerView, txs: Seq<ServerTransactionView>, n: int) -> ControllerView
    decreases n,
{
    if n <= 0 || n > txs.len() {
        c
    } else {
        started(submitted(c, txs, n - 1), incoming(0, txs[n - 1].operations)).0
    }
}

/// The sequencer holds the sequence.
///
/// After the sequencer has taken in transactions, its grid is the grid
/// that they lead to when they are carried out in the order of their
/// numbers: the grid that every participant has underneath its own work
/// once it has received them all, in whatever order.
pub proof fn sequencer_holds_the_sequence(c: ControllerView, txs: Seq<ServerTransactionView>, n: int)
    requires
        0 <= n <= txs.len(),
    ensures
        submitted(c, txs, n).grid == sequenced(c.grid, txs, 0, n),
    decreases n,
{
    if n > 0 {
        sequencer_holds_the_sequence(c, txs, n - 1);
        let before = submitted(c, txs, n - 1);
        sequencer_runs_the_transaction(before, txs[n - 1].operations);
        lemma_run_similar(
            before.grid,
            incoming(0, txs[n - 1].operations),
            incoming(txs[n - 1].id, txs[n - 1].operations),
        );
    }
}

} // verus!
