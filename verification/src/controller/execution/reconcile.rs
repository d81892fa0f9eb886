//! What reconciling with the sequencer means, as functions on the state
//! of a controller.
//!
//! Transactions of the sequencer are carried out in the order of their
//! sequence numbers, underneath the local work that the sequencer has not
//! acknowledged: the local work is taken back, the transaction is carried
//! out, and the local work is carried out again on top of it.

use crate::controller::execution::started;
use crate::controller::grid_controller::ControllerView;
use crate::controller::operation::Operation;
use crate::controller::pending_transaction::PendingView;
use crate::controller::transaction::{TransactionType, TransactionView, UnsavedView};
use crate::controller::transaction_summary::SummaryView;
use crate::controller::transactions::{unsaved_index, LogView};
use vstd::prelude::*;

verus! {

/// The edits that take back all unsaved transactions: the undoing edits
/// of the last one first.
pub open spec fn rollback_ops(unsaved: Seq<UnsavedView>) -> Seq<Operation>
    decreases unsaved.len(),
{
    if unsaved.len() == 0 {
        Seq::empty()
    } else {
        unsaved.last().reverse + rollback_ops(unsaved.drop_last())
    }
}

/// The edits of all unsaved transactions, in the order in which they were made.
pub open spec fn forward_ops(unsaved: Seq<UnsavedView>) -> Seq<Operation>
    decreases unsaved.len(),
{
    if unsaved.len() == 0 {
        Seq::empty()
    } else {
        forward_ops(unsaved.drop_last()) + unsaved.last().forward
    }
}

/// A transaction that carries out `ops` on behalf of the reconciliation.
pub open spec fn helper(ops: Seq<Operation>) -> PendingView {
    PendingView::new(0, TransactionType::Multiplayer, ops, None)
}

/// The controller after all unsaved transactions were taken back, and
/// `t` with the changes that this made added to its own. The unsaved
/// transactions stay in the log.
pub open spec fn rolled_back(c: ControllerView, t: PendingView) -> (ControllerView, PendingView) {
    if c.log.unsaved_transactions.len() == 0 {
        (c, t)
    } else {
        let (c2, r) = started(c, helper(rollback_ops(c.log.unsaved_transactions)));
        (c2, t.absorb(r))
    }
}

/// The controller with the unsaved transaction at `i` carried out again,
/// and its undoing edits replaced by those that undo it now.
pub open spec fn reapplied_one(c: ControllerView, i: int) -> (ControllerView, PendingView) {
    let u = c.log.unsaved_transactions[i];
    let (c2, p) = started(
        c,
        PendingView::new(u.id, TransactionType::Multiplayer, u.forward, None),
    );
    (
        ControllerView {
            log: LogView {
                unsaved_transactions: c2.log.unsaved_transactions.update(
                    i,
                    UnsavedView { reverse: p.reverse_operations, ..u },
                ),
                ..c2.log
            },
            ..c2
        },
        p,
    )
}

/// The controller after the unsaved transactions from `i` on were carried
/// out again, first made first, and `t` with the changes that this made.
pub open spec fn reapplied_from(c: ControllerView, t: PendingView, i: int) -> (
    ControllerView,
    PendingView,
)
    decreases c.log.unsaved_transactions.len() - i,
{
    if i < 0 || i >= c.log.unsaved_transactions.len() {
        (c, t)
    } else {
        let (c2, p) = reapplied_one(c, i);
        reapplied_from(c2, t.absorb(p), i + 1)
    }
}

/// The controller after all unsaved transactions were carried out again.
pub open spec fn reapplied(c: ControllerView, t: PendingView) -> (ControllerView, PendingView) {
    reapplied_from(c, t, 0)
}

/// What is drained from the waiting transactions `buffer` once the
/// sequence number `current` has been carried out: from the end of the
/// buffer, where the lowest numbers stand, a transaction that is already
/// covered (or has no number) is dropped, the one with the next number is
/// taken and the search goes on behind it, and anything later stays.
/// The result is what stays, the edits taken in order, the last
/// sequence number taken, and the identifiers of the transactions taken.
pub open spec fn drain(buffer: Seq<TransactionView>, current: u64) -> (
    Seq<TransactionView>,
    Seq<Operation>,
    u64,
    Seq<u128>,
)
    decreases buffer.len(),
{
    if buffer.len() == 0 {
        (buffer, Seq::empty(), current, Seq::empty())
    } else {
        let t = buffer.last();
        match t.sequence_num {
            Some(s) => if s <= current {
                drain(buffer.drop_last(), current)
            } else if s == current + 1 {
                let (rest, ops, last, ids) = drain(buffer.drop_last(), s);
                (rest, t.operations + ops, last, seq![t.id] + ids)
            } else {
                (buffer, Seq::empty(), current, Seq::empty())
            },
            None => drain(buffer.drop_last(), current),
        }
    }
}

/// The unsaved transactions without the first one with the identifier `id`.
pub open spec fn without_own(unsaved: Seq<UnsavedView>, id: u128) -> Seq<UnsavedView> {
    match unsaved_index(unsaved, id) {
        Some(i) => unsaved.remove(i),
        None => unsaved,
    }
}

/// The unsaved transactions without those that `ids` names: for each
/// identifier in turn, the first transaction that carries it leaves.
pub open spec fn without_ids(unsaved: Seq<UnsavedView>, ids: Seq<u128>) -> Seq<UnsavedView>
    decreases ids.len(),
{
    if ids.len() == 0 {
        unsaved
    } else {
        without_own(without_ids(unsaved, ids.drop_last()), ids.last())
    }
}

/// The controller after the waiting transactions that follow
/// `sequence_num` without a gap were carried out, and `t` with the
/// changes that this made. An unsaved transaction that comes back among
/// them is acknowledged and leaves the unsaved ones. The last sequence
/// number of the log becomes the last one carried out.
pub open spec fn applied_out_of_order(c: ControllerView, t: PendingView, sequence_num: u64) -> (
    ControllerView,
    PendingView,
) {
    let (rest, ops, last, ids) = drain(c.log.out_of_order_transactions, sequence_num);
    let (c2, p) = started(
        ControllerView {
            log: LogView {
                out_of_order_transactions: rest,
                unsaved_transactions: without_ids(c.log.unsaved_transactions, ids),
                ..c.log
            },
            ..c
        },
        helper(ops),
    );
    (ControllerView { log: LogView { last_sequence_num: last, ..c2.log }, ..c2 }, t.absorb(p))
}

/// Whether `i` is where a transaction with `sequence_num` goes into
/// `buffer`: before the first one with a lower number.
pub open spec fn is_insert_index(buffer: Seq<TransactionView>, sequence_num: u64, i: int) -> bool {
    &&& 0 <= i <= buffer.len()
    &&& forall|j: int|
        0 <= j < i ==> !(lower_than((#[trigger] buffer[j]).sequence_num, sequence_num))
    &&& i < buffer.len() ==> lower_than(buffer[i].sequence_num, sequence_num)
}

/// Whether a waiting transaction's number is below `sequence_num`.
pub open spec fn lower_than(n: Option<u64>, sequence_num: u64) -> bool {
    n is Some && n->0 < sequence_num
}

/// Where a transaction with `sequence_num` goes into `buffer`.
pub open spec fn insert_index(buffer: Seq<TransactionView>, sequence_num: u64) -> int {
    choose|i: int| is_insert_index(buffer, sequence_num, i)
}

/// A place that fits is the place where the transaction goes.
pub proof fn lemma_insert_index(buffer: Seq<TransactionView>, sequence_num: u64, i: int)
    requires
        is_insert_index(buffer, sequence_num, i),
    ensures
        insert_index(buffer, sequence_num) == i,
{
    let c = insert_index(buffer, sequence_num);
    if c < i {
        assert(!lower_than(buffer[c].sequence_num, sequence_num));
    } else if i < c {
        assert(!lower_than(buffer[i].sequence_num, sequence_num));
    }
}

/// The transaction `t` with the request for a new thumbnail withdrawn.
pub open spec fn without_thumbnail(t: PendingView) -> PendingView {
    PendingView { summary: SummaryView { generate_thumbnail: false, ..t.summary }, ..t }
}

/// What the transaction `t` with the number `sequence_num` does to a
/// controller whose unsaved work, if any, has been taken back.
///
/// If the number is the next one, the transaction is carried out,
/// followed by the waiting transactions that are now due. If `t` is one
/// of the unsaved transactions coming back acknowledged, it leaves the
/// unsaved ones first. If it is not, and no unsaved work is left, the
/// thumbnail is not asked for. If the number lies further ahead, the
/// transaction is put among the waiting ones, untouched. If the number
/// is not ahead at all, the transaction is dropped.
pub open spec fn core_applied(c: ControllerView, t: PendingView, sequence_num: u64) -> (
    ControllerView,
    PendingView,
) {
    if sequence_num == c.log.last_sequence_num + 1 {
        let own = unsaved_index(c.log.unsaved_transactions, t.id);
        let c1 = ControllerView {
            log: LogView {
                unsaved_transactions: without_own(c.log.unsaved_transactions, t.id),
                ..c.log
            },
            ..c
        };
        let (c2, t2) = started(c1, t);
        let (c3, t3) = applied_out_of_order(c2, t2, sequence_num);
        if own is None && c3.log.unsaved_transactions.len() == 0 {
            (c3, without_thumbnail(t3))
        } else {
            (c3, t3)
        }
    } else if sequence_num > c.log.last_sequence_num {
        let i = insert_index(c.log.out_of_order_transactions, sequence_num);
        (
            ControllerView {
                log: LogView {
                    out_of_order_transactions: c.log.out_of_order_transactions.insert(
                        i,
                        t.to_transaction(Some(sequence_num)),
                    ),
                    ..c.log
                },
                ..c
            },
            t,
        )
    } else {
        (c, t)
    }
}

/// What receiving the transaction `t` with the number `sequence_num`
/// does: if the number is the next one, unsaved work is taken back, the
/// transaction takes effect as `core_applied` says, and the unsaved work
/// is carried out again on top. Otherwise the transaction is put aside
/// or dropped, and the grid stays as it is.
pub open spec fn client_applied(c: ControllerView, t: PendingView, sequence_num: u64) -> (
    ControllerView,
    PendingView,
) {
    if sequence_num == c.log.last_sequence_num + 1 {
        let (c1, t1) = rolled_back(c, t);
        let (c2, t2) = core_applied(c1, t1, sequence_num);
        reapplied(c2, t2)
    } else {
        core_applied(c, t, sequence_num)
    }
}

/// A transaction as the sequencer sends it.
pub struct ServerTransactionView {
    pub file_id: u128,
    pub id: u128,
    pub sequence_num: u64,
    pub operations: Seq<Operation>,
}

/// The transaction in progress for a transaction that the sequencer sent.
pub open spec fn incoming(id: u128, operations: Seq<Operation>) -> PendingView {
    PendingView::new(id, TransactionType::Multiplayer, operations, None)
}

/// The controller after the transactions of `batch` from `i` on took
/// effect one after the other, and `results` with the changes that each
/// made added.
pub open spec fn batch_applied(
    c: ControllerView,
    results: PendingView,
    batch: Seq<ServerTransactionView>,
    i: int,
) -> (ControllerView, PendingView)
    decreases batch.len() - i,
{
    if i < 0 || i >= batch.len() {
        (c, results)
    } else {
        let (c2, t2) = core_applied(
            c,
            incoming(batch[i].id, batch[i].operations),
            batch[i].sequence_num,
        );
        batch_applied(c2, results.absorb(t2), batch, i + 1)
    }
}

/// What receiving a batch of transactions does: unsaved work is taken
/// back once, the transactions take effect in the order of the batch,
/// and the unsaved work is carried out again once.
pub open spec fn received_batch(c: ControllerView, batch: Seq<ServerTransactionView>) -> (
    ControllerView,
    PendingView,
) {
    let (c1, r1) = rolled_back(c, incoming(0, Seq::empty()));
    let (c2, r2) = batch_applied(c1, r1, batch, 0);
    let (c3, r3) = reapplied(c2, r2);
    (c3, PendingView { complete: true, ..r3 })
}

} // verus!
