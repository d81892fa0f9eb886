//! A transaction that is being carried out.

use crate::controller::operation::Operation;
use crate::controller::transaction::{Transaction, TransactionType, TransactionView};
use crate::controller::transaction_summary::{
    clone_operations, clone_text, SummaryView, TransactionSummary,
};
use crate::id_set::SheetIdSet;
use crate::outside::{uuid_text, uuid_to_string};
use crate::position::{SheetId, SheetPos};
use crate::values::CodeCellValue;
use std::collections::VecDeque;
use vstd::prelude::*;

verus! {

/// The code cell whose result a suspended transaction waits for.
#[derive(Debug, PartialEq, Eq)]
pub struct AsyncRequest {
    pub sheet_pos: SheetPos,
    pub code_cell: CodeCellValue,
}

impl Clone for AsyncRequest {
    fn clone(&self) -> (r: Self)
        ensures
            r == *self,
    {
        AsyncRequest { sheet_pos: self.sheet_pos, code_cell: self.code_cell.clone() }
    }
}

/// The content of a [`PendingTransaction`].
pub struct PendingView {
    pub id: u128,
    pub transaction_type: TransactionType,
    pub sequence_num: Option<u64>,
    /// The edits still to carry out, next one first.
    pub operations: Seq<Operation>,
    /// The primitive edits carried out so far, in order.
    pub forward_operations: Seq<Operation>,
    /// The edits that take back what was carried out, last edit first.
    pub reverse_operations: Seq<Operation>,
    pub summary: SummaryView,
    pub sheets_with_dirty_bounds: Set<SheetId>,
    pub cursor: Option<String>,
    /// Set while the transaction is suspended.
    pub waiting_for_async: Option<AsyncRequest>,
    /// Whether the transaction was ever suspended.
    pub has_async: bool,
    pub complete: bool,
}

impl PendingView {
    /// A transaction of type `transaction_type` that has `operations` to carry out.
    pub open spec fn new(
        id: u128,
        transaction_type: TransactionType,
        operations: Seq<Operation>,
        cursor: Option<String>,
    ) -> PendingView {
        PendingView {
            id,
            transaction_type,
            sequence_num: None,
            operations,
            forward_operations: Seq::empty(),
            reverse_operations: Seq::empty(),
            summary: SummaryView::empty(),
            sheets_with_dirty_bounds: Set::empty(),
            cursor,
            waiting_for_async: None,
            has_async: false,
            complete: false,
        }
    }

    /// The edits carried out, as a transaction to keep or to send.
    pub open spec fn forward(self) -> TransactionView {
        TransactionView {
            id: self.id,
            sequence_num: self.sequence_num,
            operations: self.forward_operations,
            cursor: self.cursor,
        }
    }

    /// The edits that take the transaction back, as a transaction.
    pub open spec fn reverse(self) -> TransactionView {
        TransactionView {
            id: self.id,
            sequence_num: self.sequence_num,
            operations: self.reverse_operations,
            cursor: self.cursor,
        }
    }

    /// The transaction with the edits it still has to carry out, as the
    /// log keeps one that arrived too early.
    pub open spec fn to_transaction(self, sequence_num: Option<u64>) -> TransactionView {
        TransactionView {
            id: self.id,
            sequence_num,
            operations: self.operations,
            cursor: self.cursor,
        }
    }

    /// The summary to hand to the caller. With `complete` it names the
    /// transaction and carries the edits to send on, if there are any.
    pub open spec fn prepare_summary(self, complete: bool, id_text: Seq<char>) -> SummaryView {
        if complete && self.forward_operations.len() > 0 {
            SummaryView {
                transaction_id: Some(id_text),
                operations: Some(self.forward_operations),
                cursor: self.cursor,
                ..self.summary
            }
        } else {
            SummaryView { cursor: self.cursor, ..self.summary }
        }
    }

    /// The transaction with the changes of `other` added to its own.
    pub open spec fn absorb(self, other: PendingView) -> PendingView {
        PendingView {
            summary: self.summary.merge(other.summary),
            sheets_with_dirty_bounds: self.sheets_with_dirty_bounds.union(
                other.sheets_with_dirty_bounds,
            ),
            ..self
        }
    }
}

/// A transaction in progress: the edits still to carry out, those carried
/// out, the edits that take them back, and a summary of what changed.
#[derive(Debug)]
pub struct PendingTransaction {
    pub id: u128,
    pub transaction_type: TransactionType,
    pub sequence_num: Option<u64>,
    pub operations: VecDeque<Operation>,
    pub forward_operations: Vec<Operation>,
    pub reverse_operations: Vec<Operation>,
    pub summary: TransactionSummary,
    pub sheets_with_dirty_bounds: SheetIdSet,
    pub cursor: Option<String>,
    pub waiting_for_async: Option<AsyncRequest>,
    pub has_async: bool,
    pub complete: bool,
}

impl View for PendingTransaction {
    type V = PendingView;

    open spec fn view(&self) -> PendingView {
        PendingView {
            id: self.id,
            transaction_type: self.transaction_type,
            sequence_num: self.sequence_num,
            operations: self.operations@,
            forward_operations: self.forward_operations@,
            reverse_operations: self.reverse_operations@,
            summary: self.summary@,
            sheets_with_dirty_bounds: self.sheets_with_dirty_bounds@,
            cursor: self.cursor,
            waiting_for_async: self.waiting_for_async,
            has_async: self.has_async,
            complete: self.complete,
        }
    }
}

impl Default for PendingTransaction {
    fn default() -> (r: Self)
        ensures
            r@ == PendingView::new(0, TransactionType::Unset, Seq::empty(), None),
    {
        PendingTransaction {
            id: 0,
            transaction_type: TransactionType::Unset,
            sequence_num: None,
            operations: VecDeque::new(),
            forward_operations: Vec::new(),
            reverse_operations: Vec::new(),
            summary: TransactionSummary::default(),
            sheets_with_dirty_bounds: SheetIdSet::new(),
            cursor: None,
            waiting_for_async: None,
            has_async: false,
            complete: false,
        }
    }
}

/// The queue that holds the elements of `ops` in order.
pub fn queue_of(ops: Vec<Operation>) -> (r: VecDeque<Operation>)
    ensures
        r@ == ops@,
{
    let mut queue = VecDeque::new();
    let mut ops = ops;
    let ghost all = ops@;
    let mut rest: Vec<Operation> = Vec::new();
    // take the elements from the back, then refill from the front
    while ops.len() > 0
        invariant
            all == ops@ + rest@.reverse(),
        decreases ops.len(),
    {
        let ghost before_ops = ops@;
        let ghost before_rest = rest@;
        let op = ops.pop().unwrap();
        rest.push(op);
        assert(ops@ + rest@.reverse() =~= before_ops + before_rest.reverse());
    }
    assert(all =~= rest@.reverse());
    while rest.len() > 0
        invariant
            all == queue@ + rest@.reverse(),
        decreases rest.len(),
    {
        let ghost before_q = queue@;
        let ghost before_rest = rest@;
        let op = rest.pop().unwrap();
        queue.push_back(op);
        assert(queue@ + rest@.reverse() =~= before_q + before_rest.reverse());
    }
    assert(all =~= queue@);
    queue
}

/// A copy of the elements of `queue`, in order.
pub fn queue_to_vec(queue: &VecDeque<Operation>) -> (r: Vec<Operation>)
    ensures
        r@ == queue@,
{
    let mut out: Vec<Operation> = Vec::new();
    let mut i: usize = 0;
    while i < queue.len()
        invariant
            i <= queue.len(),
            out@ == queue@.subrange(0, i as int),
        decreases queue.len() - i,
    {
        out.push(queue[i].clone());
        i += 1;
        assert(out@ =~= queue@.subrange(0, i as int));
    }
    assert(queue@.subrange(0, i as int) =~= queue@);
    out
}

impl PendingTransaction {
    /// A transaction of type `transaction_type` that has `operations` to carry out.
    pub fn new(
        id: u128,
        transaction_type: TransactionType,
        operations: Vec<Operation>,
        cursor: Option<String>,
    ) -> (r: Self)
        ensures
            r@ == PendingView::new(id, transaction_type, operations@, cursor),
    {
        PendingTransaction {
            id,
            transaction_type,
            sequence_num: None,
            operations: queue_of(operations),
            forward_operations: Vec::new(),
            reverse_operations: Vec::new(),
            summary: TransactionSummary::default(),
            sheets_with_dirty_bounds: SheetIdSet::new(),
            cursor,
            waiting_for_async: None,
            has_async: false,
            complete: false,
        }
    }

    /// The transaction with the edits it still has to carry out.
    pub fn to_transaction(&self, sequence_num: Option<u64>) -> (r: Transaction)
        ensures
            r@ == self@.to_transaction(sequence_num),
    {
        Transaction {
            id: self.id,
            sequence_num,
            operations: queue_to_vec(&self.operations),
            cursor: clone_text(&self.cursor),
        }
    }

    /// The edits carried out, as a transaction to keep or to send.
    pub fn to_forward_transaction(&self) -> (r: Transaction)
        ensures
            r@ == self@.forward(),
    {
        Transaction {
            id: self.id,
            sequence_num: self.sequence_num,
            operations: clone_operations(&self.forward_operations),
            cursor: clone_text(&self.cursor),
        }
    }

    /// The edits that take the transaction back, as a transaction.
    pub fn to_undo_transaction(&self) -> (r: Transaction)
        ensures
            r@ == self@.reverse(),
    {
        Transaction {
            id: self.id,
            sequence_num: self.sequence_num,
            operations: clone_operations(&self.reverse_operations),
            cursor: clone_text(&self.cursor),
        }
    }

    /// The summary to hand to the caller, where `id_text` is the text of
    /// the transaction's identifier.
    pub fn prepare_summary_with(&self, complete: bool, id_text: String) -> (r: TransactionSummary)
        ensures
            r@ == self@.prepare_summary(complete, id_text@),
    {
        let mut summary = self.summary.clone();
        summary.cursor = clone_text(&self.cursor);
        if complete && self.forward_operations.len() > 0 {
            summary.transaction_id = Some(id_text);
            summary.operations = Some(clone_operations(&self.forward_operations));
        }
        summary
    }

    /// The summary to hand to the caller. With `complete` it names the
    /// transaction and carries the edits to send on, if there are any.
    pub fn prepare_summary(&self, complete: bool) -> (r: TransactionSummary)
        ensures
            r@ == self@.prepare_summary(complete, uuid_text(self.id)),
    {
        self.prepare_summary_with(complete, uuid_to_string(self.id))
    }

    /// Adds the changes that `other` recorded to those of `self`.
    pub fn absorb(&mut self, other: &PendingTransaction)
        ensures
            final(self)@ == old(self)@.absorb(other@),
    {
        self.sheets_with_dirty_bounds.extend(&other.sheets_with_dirty_bounds);
        self.summary.merge(&other.summary);
    }
}

impl Clone for PendingTransaction {
    fn clone(&self) -> (r: Self)
        ensures
            r@ == self@,
    {
        PendingTransaction {
            id: self.id,
            transaction_type: self.transaction_type,
            sequence_num: self.sequence_num,
            operations: queue_of(queue_to_vec(&self.operations)),
            forward_operations: clone_operations(&self.forward_operations),
            reverse_operations: clone_operations(&self.reverse_operations),
            summary: self.summary.clone(),
            sheets_with_dirty_bounds: self.sheets_with_dirty_bounds.clone(),
            cursor: clone_text(&self.cursor),
            waiting_for_async: match &self.waiting_for_async {
                Some(r) => Some(r.clone()),
                None => None,
            },
            has_async: self.has_async,
            complete: self.complete,
        }
    }
}

} // verus!
