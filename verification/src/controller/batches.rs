//! A batch of transactions does what its transactions do one by one.

use crate::controller::execution::reconcile::{
    applied_out_of_order, batch_applied, client_applied, core_applied, drain, helper, incoming,
    reapplied, received_batch, rollback_ops, rolled_back, without_ids, without_own,
    ServerTransactionView,
};
use crate::controller::execution::started;
use crate::controller::grid_controller::ControllerView;
use crate::controller::guarantees::{
    advanced, lemma_run_similar, lemma_run_wf, lemma_without_own_same,
    next_transaction_goes_underneath, still_unsaved,
};
use crate::controller::layers::{
    base, layered, lemma_base, lemma_forward_ops_same, lemma_reapplied_from, lemma_rolled_back,
    lemma_started_remote, same_work,
};
use crate::controller::operation::{all_primitive, Operation};
use crate::controller::pending_transaction::PendingView;
use crate::controller::transaction::UnsavedView;
use crate::controller::transactions::LogView;

use vstd::prelude::*;

verus! {

/// The controller after the transactions of `batch` from `i` on were
/// received one by one.
pub open spec fn one_by_one(c: ControllerView, batch: Seq<ServerTransactionView>, i: int) -> ControllerView
    decreases batch.len() - i,
{
    if i < 0 || i >= batch.len() {
        c
    } else {
        one_by_one(
            client_applied(
                c,
                incoming(batch[i].id, batch[i].operations),
                batch[i].sequence_num,
            ).0,
            batch,
            i + 1,
        )
    }
}

/// Whether `bare` is the participant `whole` with its unsaved work taken
/// back: the grid is what lies underneath that work, the work itself is
/// still listed, and the rest is the same.
pub open spec fn uncovered(whole: ControllerView, bare: ControllerView) -> bool {
    &&& layered(whole.grid, whole.log.unsaved_transactions)
    &&& bare.grid == base(whole.grid, whole.log.unsaved_transactions)
    &&& same_work(bare.log.unsaved_transactions, whole.log.unsaved_transactions)
    &&& bare.log.last_sequence_num == whole.log.last_sequence_num
    &&& bare.log.out_of_order_transactions == whole.log.out_of_order_transactions
    &&& bare.log.async_transactions == whole.log.async_transactions
    &&& bare.undo_stack == whole.undo_stack
    &&& bare.redo_stack == whole.redo_stack
}

/// Lists with the same work lose the same transactions.
pub proof fn lemma_without_ids_same(a: Seq<UnsavedView>, b: Seq<UnsavedView>, ids: Seq<u128>)
    requires
        same_work(a, b),
    ensures
        same_work(without_ids(a, ids), without_ids(b, ids)),
    decreases ids.len(),
{
    if ids.len() > 0 {
        lemma_without_ids_same(a, b, ids.drop_last());
        lemma_without_own_same(
            without_ids(a, ids.drop_last()),
            without_ids(b, ids.drop_last()),
            ids.last(),
        );
    }
}

/// Having the same work carries over from list to list, both ways.
pub proof fn lemma_same_work_chain(a: Seq<UnsavedView>, b: Seq<UnsavedView>, c: Seq<UnsavedView>)
    requires
        same_work(a, b),
        same_work(b, c),
    ensures
        same_work(a, c),
        same_work(b, a),
{
    assert forall|i: int| 0 <= i < a.len() implies (#[trigger] a[i]).id == c[i].id && a[i].forward
        == c[i].forward by {
        assert(a[i].id == b[i].id);
    }
    assert forall|i: int| 0 <= i < b.len() implies (#[trigger] b[i]).id == a[i].id && b[i].forward
        == a[i].forward by {
        assert(a[i].id == b[i].id);
    }
}

/// What a transaction does to a participant whose unsaved work is taken
/// back is what it does underneath the work of the whole participant.
pub proof fn lemma_uncovered_step(
    whole: ControllerView,
    bare: ControllerView,
    t: PendingView,
    id: u128,
    operations: Seq<Operation>,
    sequence_num: u64,
)
    requires
        uncovered(whole, bare),
        t == incoming(id, operations),
    ensures
        uncovered(
            client_applied(whole, incoming(id, operations), sequence_num).0,
            core_applied(bare, t, sequence_num).0,
        ),
{
    let last = whole.log.last_sequence_num;
    lemma_base(whole.grid, whole.log.unsaved_transactions);
    if sequence_num == last + 1 {
        next_transaction_goes_underneath(whole, id, operations, sequence_num);
        let whole2 = client_applied(whole, incoming(id, operations), sequence_num).0;
        // the bare participant
        let rest = without_own(bare.log.unsaved_transactions, id);
        let c1 = ControllerView {
            log: LogView { unsaved_transactions: rest, ..bare.log },
            ..bare
        };
        lemma_started_remote(c1, t);
        let (c2, t2) = started(c1, t);
        lemma_run_similar(bare.grid, t, incoming(id, operations));
        lemma_run_wf(bare.grid, incoming(id, operations));
        let (buffer, due, end, ids) = drain(bare.log.out_of_order_transactions, sequence_num);
        let left = without_ids(rest, ids);
        let c2b = ControllerView {
            log: LogView {
                out_of_order_transactions: buffer,
                unsaved_transactions: left,
                ..c2.log
            },
            ..c2
        };
        lemma_started_remote(c2b, helper(due));
        let (c3, t3) = applied_out_of_order(c2, t2, sequence_num);
        assert(c3.grid == advanced(
            bare.grid,
            id,
            operations,
            bare.log.out_of_order_transactions,
            sequence_num,
        ));
        let bare2 = core_applied(bare, t, sequence_num).0;
        assert(bare2.grid == c3.grid);
        assert(bare2.log.unsaved_transactions == left);
        // the same work is left
        lemma_without_own_same(
            bare.log.unsaved_transactions,
            whole.log.unsaved_transactions,
            id,
        );
        lemma_without_ids_same(rest, without_own(whole.log.unsaved_transactions, id), ids);
        let whole_left = still_unsaved(
            whole.log.unsaved_transactions,
            id,
            whole.log.out_of_order_transactions,
            sequence_num,
        );
        lemma_same_work_chain(whole2.log.unsaved_transactions, whole_left, left);
        lemma_same_work_chain(left, whole_left, whole2.log.unsaved_transactions);
        assert(same_work(left, whole_left)) by {
            lemma_same_work_chain(whole_left, left, left);
        }
    }
}

/// A batch, taken in on a participant whose unsaved work is taken back,
/// keeps step with the transactions received one by one.
pub proof fn lemma_batch_keeps_step(
    whole: ControllerView,
    bare: ControllerView,
    results: PendingView,
    batch: Seq<ServerTransactionView>,
    i: int,
)
    requires
        uncovered(whole, bare),
        0 <= i <= batch.len(),
    ensures
        uncovered(one_by_one(whole, batch, i), batch_applied(bare, results, batch, i).0),
    decreases batch.len() - i,
{
    if i < batch.len() {
        let t = incoming(batch[i].id, batch[i].operations);
        lemma_uncovered_step(
            whole,
            bare,
            t,
            batch[i].id,
            batch[i].operations,
            batch[i].sequence_num,
        );
        let (bare2, t2) = core_applied(bare, t, batch[i].sequence_num);
        let whole2 = client_applied(whole, t, batch[i].sequence_num).0;
        lemma_batch_keeps_step(whole2, bare2, results.absorb(t2), batch, i + 1);
    }
}

/// A batch does what its transactions do one by one.
///
/// On a layered grid, taking in a batch, with the unsaved work taken
/// back once before and carried out again once after, leaves the same
/// grid, the same state underneath, the same unsaved work and the same
/// log as receiving the transactions of the batch one after the other.
pub proof fn batch_is_like_one_by_one(c: ControllerView, batch: Seq<ServerTransactionView>)
    requires
        layered(c.grid, c.log.unsaved_transactions),
    ensures
        ({
            let together = received_batch(c, batch).0;
            let single = one_by_one(c, batch, 0);
            &&& together.grid == single.grid
            &&& layered(together.grid, together.log.unsaved_transactions)
            &&& layered(single.grid, single.log.unsaved_transactions)
            &&& base(together.grid, together.log.unsaved_transactions) == base(
                single.grid,
                single.log.unsaved_transactions,
            )
            &&& same_work(together.log.unsaved_transactions, single.log.unsaved_transactions)
            &&& together.log.last_sequence_num == single.log.last_sequence_num
            &&& together.log.out_of_order_transactions == single.log.out_of_order_transactions
            &&& together.log.async_transactions == single.log.async_transactions
            &&& together.undo_stack == single.undo_stack
            &&& together.redo_stack == single.redo_stack
        }),
{
    let first = incoming(0, Seq::empty());
    lemma_rolled_back(c, first);
    let (c1, r1) = rolled_back(c, first);
    assert(uncovered(c, c1));
    lemma_batch_keeps_step(c, c1, r1, batch, 0);
    let (c2, r2) = batch_applied(c1, r1, batch, 0);
    let single = one_by_one(c, batch, 0);
    lemma_base(single.grid, single.log.unsaved_transactions);
    let unsaved = c2.log.unsaved_transactions;
    assert(unsaved.subrange(0, 0) =~= Seq::<UnsavedView>::empty());
    assert forall|k: int| 0 <= k < unsaved.len() implies all_primitive(
        (#[trigger] unsaved[k]).forward,
    ) by {
        assert(unsaved[k].forward == single.log.unsaved_transactions[k].forward);
    }
    lemma_reapplied_from(c2, r2, 0);
    let c3 = reapplied(c2, r2).0;
    assert(unsaved.subrange(0, unsaved.len() as int) =~= unsaved);
    lemma_forward_ops_same(unsaved, single.log.unsaved_transactions);
    lemma_same_work_chain(
        c3.log.unsaved_transactions,
        unsaved,
        single.log.unsaved_transactions,
    );
    assert(rollback_ops(unsaved.subrange(0, 0))
        =~= Seq::<Operation>::empty());
}

} // verus!
