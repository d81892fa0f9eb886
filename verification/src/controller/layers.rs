//! Local work as layers on top of the state that the sequencer has
//! ordered.
//!
//! The grid of a participant is the state that the sequencer's
//! transactions lead to, with the participant's unsaved transactions
//! carried out on top, oldest first. Taking the unsaved transactions
//! back, newest first, uncovers that state.

use crate::controller::execution::model::{lemma_run_keeps, lemma_run_primitive, run};
use crate::controller::execution::reconcile::{
    forward_ops, reapplied_from, reapplied_one, rollback_ops, rolled_back,
};
use crate::controller::execution::started;
use crate::controller::grid_controller::ControllerView;
use crate::controller::operation::{
    all_primitive, apply_ops, lemma_apply_ops_concat, lemma_apply_ops_wf, lemma_undo_ops,
    reverse_ops, Operation,
};
use crate::controller::pending_transaction::PendingView;
use crate::controller::transaction::{TransactionType, UnsavedView};

use crate::grid::{grid_wf, GridView};
use vstd::prelude::*;

verus! {

/// Whether `g` is some grid with the transactions `unsaved` carried out
/// on top, oldest first, such that the undoing edits of each lead back
/// exactly to the grid that it was carried out on.
pub open spec fn layered(g: GridView, unsaved: Seq<UnsavedView>) -> bool
    decreases unsaved.len(),
{
    &&& grid_wf(g)
    &&& unsaved.len() > 0 ==> {
        let u = unsaved.last();
        &&& all_primitive(u.forward)
        &&& all_primitive(u.reverse)
        &&& apply_ops(apply_ops(g, u.reverse), u.forward) == g
        &&& layered(apply_ops(g, u.reverse), unsaved.drop_last())
    }
}

/// The grid underneath the unsaved transactions: what taking all of
/// them back uncovers.
pub open spec fn base(g: GridView, unsaved: Seq<UnsavedView>) -> GridView {
    apply_ops(g, rollback_ops(unsaved))
}

/// Whether every unsaved transaction is made of primitive edits.
pub open spec fn primitive_forward(unsaved: Seq<UnsavedView>) -> bool {
    forall|i: int| 0 <= i < unsaved.len() ==> all_primitive((#[trigger] unsaved[i]).forward)
}

/// Whether two lists of unsaved transactions hold the same transactions
/// with the same edits, whatever their undoing edits are.
pub open spec fn same_work(a: Seq<UnsavedView>, b: Seq<UnsavedView>) -> bool {
    &&& a.len() == b.len()
    &&& forall|i: int|
        0 <= i < a.len() ==> (#[trigger] a[i]).id == b[i].id && a[i].forward == b[i].forward
}

/// Primitive edits followed by primitive edits are primitive edits.
pub proof fn lemma_all_primitive_concat(a: Seq<Operation>, b: Seq<Operation>)
    requires
        all_primitive(a),
        all_primitive(b),
    ensures
        all_primitive(a + b),
{
    assert forall|i: int| 0 <= i < (a + b).len() implies (#[trigger] (a + b)[i]).is_primitive() by {
        if i < a.len() {
            assert((a + b)[i] == a[i]);
        } else {
            assert((a + b)[i] == b[i - a.len()]);
        }
    }
}

/// Underneath layered work lies a grid in order; the work carried out
/// on it gives the grid back.
pub proof fn lemma_base(g: GridView, unsaved: Seq<UnsavedView>)
    requires
        layered(g, unsaved),
    ensures
        grid_wf(base(g, unsaved)),
        apply_ops(base(g, unsaved), forward_ops(unsaved)) == g,
        all_primitive(rollback_ops(unsaved)),
        all_primitive(forward_ops(unsaved)),
        primitive_forward(unsaved),
    decreases unsaved.len(),
{
    if unsaved.len() > 0 {
        let u = unsaved.last();
        let rest = unsaved.drop_last();
        let below = apply_ops(g, u.reverse);
        lemma_base(below, rest);
        lemma_apply_ops_concat(g, u.reverse, rollback_ops(rest));
        lemma_apply_ops_concat(base(below, rest), forward_ops(rest), u.forward);
        lemma_all_primitive_concat(u.reverse, rollback_ops(rest));
        lemma_all_primitive_concat(forward_ops(rest), u.forward);
        assert forall|i: int| 0 <= i < unsaved.len() implies all_primitive(
            (#[trigger] unsaved[i]).forward,
        ) by {
            if i < rest.len() {
                assert(unsaved[i] == rest[i]);
            }
        }
    }
}

/// The edits of unsaved transactions depend on their edits alone.
pub proof fn lemma_forward_ops_same(a: Seq<UnsavedView>, b: Seq<UnsavedView>)
    requires
        same_work(a, b),
    ensures
        forward_ops(a) == forward_ops(b),
    decreases a.len(),
{
    if a.len() > 0 {
        assert forall|i: int| 0 <= i < a.drop_last().len() implies (#[trigger] a.drop_last()[i]).id
            == b.drop_last()[i].id && a.drop_last()[i].forward == b.drop_last()[i].forward by {
            assert(a.drop_last()[i] == a[i]);
            assert(b.drop_last()[i] == b[i]);
        }
        lemma_forward_ops_same(a.drop_last(), b.drop_last());
        assert(a.last().forward == b.last().forward) by {
            assert(a[a.len() - 1].forward == b[a.len() - 1].forward);
        }
    }
}

/// The edits of a list of transactions are those of its first part
/// followed by those of the rest.
pub proof fn lemma_forward_ops_split(u: Seq<UnsavedView>, k: int)
    requires
        0 <= k <= u.len(),
    ensures
        forward_ops(u) == forward_ops(u.subrange(0, k)) + forward_ops(
            u.subrange(k, u.len() as int),
        ),
    decreases u.len() - k,
{
    let tail = u.subrange(k, u.len() as int);
    if k == u.len() {
        assert(u.subrange(0, k) =~= u);
        assert(forward_ops(tail) =~= Seq::<Operation>::empty());
        assert(forward_ops(u) + Seq::<Operation>::empty() =~= forward_ops(u));
    } else {
        assert(u.drop_last().subrange(0, k) =~= u.subrange(0, k));
        assert(u.drop_last().subrange(k, u.len() - 1) =~= tail.drop_last());
        assert(tail.last() == u.last());
        lemma_forward_ops_split(u.drop_last(), k);
        assert(forward_ops(u) =~= forward_ops(u.subrange(0, k)) + forward_ops(tail));
    }
}

/// A transaction of the reconciliation never waits: it is carried out
/// to its end, and only the grid changes.
pub proof fn lemma_started_remote(c: ControllerView, t: PendingView)
    requires
        !t.transaction_type.spec_is_local(),
        t.waiting_for_async is None,
    ensures
        started(c, t).0 == (ControllerView { grid: run(c.grid, t).0, ..c }),
        started(c, t).1 == (PendingView { complete: true, ..run(c.grid, t).1 }),
{
    lemma_run_keeps(c.grid, t);
}

/// Carrying out primitive edits as a transaction of the reconciliation
/// applies them to the grid and records the edits that undo them.
pub proof fn lemma_started_primitive(c: ControllerView, id: u128, ops: Seq<Operation>)
    requires
        all_primitive(ops),
    ensures
        started(c, PendingView::new(id, TransactionType::Multiplayer, ops, None)).0 == (
        ControllerView { grid: apply_ops(c.grid, ops), ..c }),
        started(
            c,
            PendingView::new(id, TransactionType::Multiplayer, ops, None),
        ).1.reverse_operations == reverse_ops(c.grid, ops),
{
    let t = PendingView::new(id, TransactionType::Multiplayer, ops, None);
    lemma_started_remote(c, t);
    lemma_run_primitive(c.grid, t);
    assert(reverse_ops(c.grid, ops) + t.reverse_operations =~= reverse_ops(c.grid, ops));
}

/// Taking layered work back uncovers the grid underneath; nothing else
/// changes.
pub proof fn lemma_rolled_back(c: ControllerView, t: PendingView)
    requires
        layered(c.grid, c.log.unsaved_transactions),
    ensures
        rolled_back(c, t).0 == (ControllerView {
            grid: base(c.grid, c.log.unsaved_transactions),
            ..c
        }),
{
    lemma_base(c.grid, c.log.unsaved_transactions);
    if c.log.unsaved_transactions.len() > 0 {
        lemma_started_primitive(c, 0, rollback_ops(c.log.unsaved_transactions));
    }
}

/// What carrying unsaved work out again leaves: the work from `i` on is
/// applied to the grid, and the whole of it is layered again, on top of
/// what lay beneath the work before `i`.
pub proof fn lemma_reapplied_from(c: ControllerView, t: PendingView, i: int)
    requires
        0 <= i <= c.log.unsaved_transactions.len(),
        layered(c.grid, c.log.unsaved_transactions.subrange(0, i)),
        primitive_forward(c.log.unsaved_transactions),
    ensures
        ({
            let c2 = reapplied_from(c, t, i).0;
            &&& c2.grid == apply_ops(
                c.grid,
                forward_ops(
                    c.log.unsaved_transactions.subrange(
                        i,
                        c.log.unsaved_transactions.len() as int,
                    ),
                ),
            )
            &&& layered(c2.grid, c2.log.unsaved_transactions)
            &&& base(c2.grid, c2.log.unsaved_transactions) == base(
                c.grid,
                c.log.unsaved_transactions.subrange(0, i),
            )
            &&& same_work(c2.log.unsaved_transactions, c.log.unsaved_transactions)
            &&& c2.log.last_sequence_num == c.log.last_sequence_num
            &&& c2.log.out_of_order_transactions == c.log.out_of_order_transactions
            &&& c2.log.async_transactions == c.log.async_transactions
            &&& c2.log.last_get_transactions_time == c.log.last_get_transactions_time
            &&& c2.undo_stack == c.undo_stack
            &&& c2.redo_stack == c.redo_stack
        }),
    decreases c.log.unsaved_transactions.len() - i,
{
    let unsaved = c.log.unsaved_transactions;
    let n = unsaved.len() as int;
    if i >= n {
        assert(unsaved.subrange(0, i) =~= unsaved);
        assert(forward_ops(unsaved.subrange(i, n)) =~= Seq::<Operation>::empty());
    } else {
        let u = unsaved[i];
        let (c2, p) = reapplied_one(c, i);
        let again = PendingView::new(u.id, TransactionType::Multiplayer, u.forward, None);
        lemma_started_primitive(c, u.id, u.forward);
        lemma_undo_ops(c.grid, u.forward);
        lemma_apply_ops_wf(c.grid, u.forward);
        let fresh = UnsavedView { reverse: p.reverse_operations, ..u };
        let unsaved2 = c2.log.unsaved_transactions;
        assert(unsaved2 == unsaved.update(i, fresh));
        assert(unsaved2.subrange(0, i + 1).last() == fresh);
        assert(unsaved2.subrange(0, i + 1).drop_last() =~= unsaved.subrange(0, i));
        assert(layered(c2.grid, unsaved2.subrange(0, i + 1)));
        assert forall|k: int| 0 <= k < unsaved2.len() implies all_primitive(
            (#[trigger] unsaved2[k]).forward,
        ) by {
            if k != i {
                assert(unsaved2[k] == unsaved[k]);
            }
        }
        lemma_reapplied_from(c2, t.absorb(p), i + 1);
        let c3 = reapplied_from(c2, t.absorb(p), i + 1).0;
        assert(unsaved2.subrange(i + 1, n) =~= unsaved.subrange(i + 1, n));
        // the grid: the transaction at `i`, then the rest
        let tail = unsaved.subrange(i, n);
        lemma_forward_ops_split(tail, 1);
        assert(tail.subrange(0, 1) =~= seq![u]);
        assert(tail.subrange(1, tail.len() as int) =~= unsaved.subrange(i + 1, n));
        assert(forward_ops(seq![u]) =~= u.forward) by {
            assert(seq![u].drop_last() =~= Seq::<UnsavedView>::empty());
            assert(forward_ops(seq![u].drop_last()) =~= Seq::<Operation>::empty());
        }
        lemma_apply_ops_concat(c.grid, u.forward, forward_ops(unsaved.subrange(i + 1, n)));
        // the base: what lay beneath the first `i` transactions
        let head = unsaved2.subrange(0, i + 1);
        assert(rollback_ops(head) == fresh.reverse + rollback_ops(unsaved.subrange(0, i)));
        lemma_apply_ops_concat(c2.grid, fresh.reverse, rollback_ops(unsaved.subrange(0, i)));
        assert forall|k: int| 0 <= k < n implies (#[trigger] c3.log.unsaved_transactions[k]).id
            == unsaved[k].id && c3.log.unsaved_transactions[k].forward == unsaved[k].forward by {
            assert(c3.log.unsaved_transactions[k].id == unsaved2[k].id);
            if k != i {
                assert(unsaved2[k] == unsaved[k]);
            }
        }
    }
}

} // verus!
