//! What the reconciliation guarantees.

use crate::controller::execution::model::{
    expanding, flip_op, lemma_run_consistent, lemma_run_keeps, lemma_run_primitive,
    lemma_step_decreases, lemma_step_keeps, performed, run, runs_len, step, swept,
};
use crate::controller::execution::receive_multiplayer::{
    announced, SECONDS_TO_WAIT_FOR_GET_TRANSACTIONS,
};
use crate::controller::execution::reconcile::{
    applied_out_of_order, client_applied, core_applied, drain, forward_ops, helper, incoming,
    is_insert_index, lemma_insert_index, reapplied, reapplied_from, reapplied_one, rollback_ops,
    rolled_back, without_ids, without_own, without_thumbnail,
};
use crate::controller::execution::{finalized, started};
use crate::controller::grid_controller::ControllerView;
use crate::controller::layers::{
    base, layered, lemma_base, lemma_forward_ops_same, lemma_forward_ops_split,
    lemma_reapplied_from, lemma_rolled_back, lemma_started_remote, primitive_forward, same_work,
};
use crate::controller::operation::{
    all_primitive, applies, apply_op, apply_ops, lemma_apply_ops_concat, lemma_apply_ops_wf,
    lemma_same_ids, Operation,
};
use crate::controller::pending_transaction::PendingView;
use crate::controller::transaction::{TransactionType, TransactionView, UnsavedView};
use crate::controller::transactions::{is_first_unsaved, unsaved_index, LogView};
use crate::controller::user_actions::{local_transaction, undone};
use crate::grid::{grid_wf, is_first_sheet, sheet_index, GridView};
use crate::position::{Rect, SheetId, SheetPos};
use crate::values::CellValue;
use vstd::prelude::*;

verus! {

/// The state that the sequencer's transactions lead to once the
/// transaction with the edits `operations` and the number `sequence_num`
/// has been carried out on `below`, followed by the transactions of
/// `buffer` that are then due.
pub open spec fn advanced(
    below: GridView,
    id: u128,
    operations: Seq<Operation>,
    buffer: Seq<TransactionView>,
    sequence_num: u64,
) -> GridView {
    run(run(below, incoming(id, operations)).0, helper(drain(buffer, sequence_num).1)).0
}

/// A run on a grid in order gives a grid in order.
pub proof fn lemma_run_wf(g: GridView, t: PendingView)
    requires
        grid_wf(g),
    ensures
        grid_wf(run(g, PendingView::new(t.id, t.transaction_type, t.operations, t.cursor)).0),
{
    let fresh = PendingView::new(t.id, t.transaction_type, t.operations, t.cursor);
    assert(apply_ops(g, fresh.forward_operations) == g);
    assert(apply_ops(g, fresh.reverse_operations) == g);
    lemma_run_consistent(g, g, fresh);
}

/// The unsaved transactions that are left once the transaction `id` with
/// the number `sequence_num` and the waiting transactions that are then
/// due have been carried out: those of them that were unsaved
/// transactions coming back are acknowledged.
pub open spec fn still_unsaved(
    unsaved: Seq<UnsavedView>,
    id: u128,
    buffer: Seq<TransactionView>,
    sequence_num: u64,
) -> Seq<UnsavedView> {
    without_ids(without_own(unsaved, id), drain(buffer, sequence_num).3)
}

/// Taking a transaction out of the unsaved ones leaves transactions of
/// primitive edits.
pub proof fn lemma_without_own_primitive(unsaved: Seq<UnsavedView>, id: u128)
    requires
        primitive_forward(unsaved),
    ensures
        primitive_forward(without_own(unsaved, id)),
{
    let rest = without_own(unsaved, id);
    assert forall|k: int| 0 <= k < rest.len() implies all_primitive(
        (#[trigger] rest[k]).forward,
    ) by {
        match unsaved_index(unsaved, id) {
            Some(i) => {
                if k < i {
                    assert(rest[k] == unsaved[k]);
                } else {
                    assert(rest[k] == unsaved[k + 1]);
                }
            },
            None => {},
        }
    }
}

/// Taking transactions out of the unsaved ones leaves transactions of
/// primitive edits.
pub proof fn lemma_without_ids_primitive(unsaved: Seq<UnsavedView>, ids: Seq<u128>)
    requires
        primitive_forward(unsaved),
    ensures
        primitive_forward(without_ids(unsaved, ids)),
    decreases ids.len(),
{
    if ids.len() > 0 {
        lemma_without_ids_primitive(unsaved, ids.drop_last());
        lemma_without_own_primitive(without_ids(unsaved, ids.drop_last()), ids.last());
    }
}

/// The next transaction of the sequencer takes effect underneath the
/// local work.
///
/// Let the grid be layered: the unsaved transactions on top of the state
/// that the sequencer's transactions have led to. When the transaction
/// with the next sequence number is received, that state advances by the
/// edits of the transaction, and of the waiting transactions that are
/// now due, and by nothing else. The grid is that state with the
/// remaining unsaved transactions on top, in the order in which they
/// were made; they are the ones from before, less those that have come
/// back acknowledged. The log moves on to the last number carried out
/// and keeps the transactions that are still ahead.
pub proof fn next_transaction_goes_underneath(
    c: ControllerView,
    id: u128,
    operations: Seq<Operation>,
    sequence_num: u64,
)
    requires
        layered(c.grid, c.log.unsaved_transactions),
        sequence_num == c.log.last_sequence_num + 1,
    ensures
        ({
            let c2 = client_applied(c, incoming(id, operations), sequence_num).0;
            let below = advanced(
                base(c.grid, c.log.unsaved_transactions),
                id,
                operations,
                c.log.out_of_order_transactions,
                sequence_num,
            );
            let left = still_unsaved(
                c.log.unsaved_transactions,
                id,
                c.log.out_of_order_transactions,
                sequence_num,
            );
            &&& layered(c2.grid, c2.log.unsaved_transactions)
            &&& base(c2.grid, c2.log.unsaved_transactions) == below
            &&& c2.grid == apply_ops(below, forward_ops(left))
            &&& same_work(c2.log.unsaved_transactions, left)
            &&& c2.log.last_sequence_num == drain(
                c.log.out_of_order_transactions,
                sequence_num,
            ).2
            &&& c2.log.out_of_order_transactions == drain(
                c.log.out_of_order_transactions,
                sequence_num,
            ).0
            &&& c2.log.async_transactions == c.log.async_transactions
            &&& c2.undo_stack == c.undo_stack
            &&& c2.redo_stack == c.redo_stack
        }),
{
    let t = incoming(id, operations);
    let unsaved = c.log.unsaved_transactions;
    let below0 = base(c.grid, unsaved);
    lemma_base(c.grid, unsaved);
    lemma_rolled_back(c, t);
    let (c1, t1) = rolled_back(c, t);
    assert(c1.log == c.log);
    assert(t1.operations == operations && t1.waiting_for_async is None
        && !t1.transaction_type.spec_is_local());
    // the transaction itself
    let rest = without_own(unsaved, id);
    let own = unsaved_index(unsaved, id);
    let c1b = ControllerView {
        log: LogView { unsaved_transactions: rest, ..c1.log },
        ..c1
    };
    lemma_started_remote(c1b, t1);
    let (c2, t2) = started(c1b, t1);
    lemma_run_similar(below0, t1, t);
    assert(c2.grid == run(below0, t).0);
    lemma_run_wf(below0, t);
    // the waiting transactions that are due
    let (buffer, due, last, ids) = drain(c.log.out_of_order_transactions, sequence_num);
    let left = without_ids(rest, ids);
    let c2b = ControllerView {
        log: LogView { out_of_order_transactions: buffer, unsaved_transactions: left, ..c2.log },
        ..c2
    };
    lemma_started_remote(c2b, helper(due));
    let (c3, t3) = applied_out_of_order(c2, t2, sequence_num);
    lemma_run_wf(c2.grid, helper(due));
    let below = advanced(below0, id, operations, c.log.out_of_order_transactions, sequence_num);
    assert(c3.grid == below);
    assert(c3.log.unsaved_transactions == left);
    // the unsaved work on top again
    let t3b = if own is None && left.len() == 0 {
        without_thumbnail(t3)
    } else {
        t3
    };
    assert(core_applied(c1, t1, sequence_num) == (c3, t3b));
    assert(left.subrange(0, 0) =~= Seq::<UnsavedView>::empty());
    lemma_without_own_primitive(unsaved, id);
    lemma_without_ids_primitive(rest, ids);
    lemma_reapplied_from(c3, t3b, 0);
    let c4 = reapplied(c3, t3b).0;
    assert(left.subrange(0, left.len() as int) =~= left);
    lemma_forward_ops_same(c4.log.unsaved_transactions, left);
    assert(rollback_ops(left.subrange(0, 0)) =~= Seq::<Operation>::empty());
}

/// The grid that a run leads to does not depend on what the transaction
/// has recorded so far, nor on its identifier.
pub proof fn lemma_run_similar(g: GridView, a: PendingView, b: PendingView)
    requires
        a.operations == b.operations,
        a.transaction_type.spec_is_local() == b.transaction_type.spec_is_local(),
        a.waiting_for_async is None,
        b.waiting_for_async is None,
        !a.transaction_type.spec_is_local(),
    ensures
        run(g, a).0 == run(g, b).0,
    decreases expanding(a.operations), a.operations.len(),
{
    if a.operations.len() > 0 {
        lemma_step_decreases(g, a);
        lemma_step_keeps(g, a);
        lemma_step_keeps(g, b);
        lemma_step_similar(g, a, b);
        let (g2, a2) = step(g, a);
        let (g3, b2) = step(g, b);
        lemma_run_similar(g2, a2, b2);
    }
}

/// A step changes the grid and the queue by the queue and the grid alone.
pub proof fn lemma_step_similar(g: GridView, a: PendingView, b: PendingView)
    requires
        a.operations == b.operations,
        a.operations.len() > 0,
        a.transaction_type.spec_is_local() == b.transaction_type.spec_is_local(),
        a.waiting_for_async is None,
        b.waiting_for_async is None,
        !a.transaction_type.spec_is_local(),
    ensures
        step(g, a).0
            == step(g, b).0,
        step(g, a).1.operations
            == step(g, b).1.operations,
{
    let rest_a = PendingView { operations: a.operations.drop_first(), ..a };
    let rest_b = PendingView { operations: b.operations.drop_first(), ..b };
    match a.operations[0] {
        Operation::CheckSpills { sheet_rect } => {
            lemma_swept_similar(
                g,
                rest_a,
                rest_b,
                sheet_rect.sheet_id,
                0,
                runs_len(g, sheet_rect.sheet_id),
                Some(sheet_rect.spec_rect()),
            );
        },
        Operation::CheckAllSpills { sheet_id } => {
            lemma_swept_similar(
                g,
                rest_a,
                rest_b,
                sheet_id,
                0,
                runs_len(g, sheet_id),
                None,
            );
        },
        _ => {},
    }
}

/// A check for spills changes the grid by the grid alone.
pub proof fn lemma_swept_similar(
    g: GridView,
    a: PendingView,
    b: PendingView,
    sheet_id: SheetId,
    i: int,
    n: int,
    rect: Option<Rect>,
)
    requires
        a.operations == b.operations,
    ensures
        swept(g, a, sheet_id, i, n, rect).0
            == swept(g, b, sheet_id, i, n, rect).0,
        swept(g, a, sheet_id, i, n, rect).1.operations
            == swept(g, b, sheet_id, i, n, rect).1.operations,
    decreases n - i,
{
    match sheet_index(g, sheet_id) {
        None => {},
        Some(si) => {
            if !(i < 0 || i >= n || i >= g[si].code_runs.len()) {
                let (pos, run) = g[si].code_runs[i];
                let blocked = g[si].blocked(i);
                let in_scope = match rect {
                    Some(r) => run.spec_output_rect(pos, true).spec_intersects(r),
                    None => true,
                };
                if in_scope && blocked != run.spill_error {
                    let op = flip_op(g[si], i, blocked);
                    let (g2, a2) = performed(g, a, op);
                    let (g3, b2) = performed(g, b, op);
                    lemma_swept_similar(g2, a2, b2, sheet_id, i + 1, n, None);
                } else {
                    lemma_swept_similar(g, a, b, sheet_id, i + 1, n, rect);
                }
            }
        },
    }
}

/// Lists with the same work lose the same transaction.
pub proof fn lemma_without_own_same(a: Seq<UnsavedView>, b: Seq<UnsavedView>, id: u128)
    requires
        same_work(a, b),
    ensures
        same_work(without_own(a, id), without_own(b, id)),
        unsaved_index(a, id) == unsaved_index(b, id),
{
    if unsaved_index(a, id) is Some {
        let i = unsaved_index(a, id)->0;
        assert(is_first_unsaved(a, id, i));
        assert(is_first_unsaved(b, id, i)) by {
            assert(b[i].id == a[i].id);
            assert forall|j: int| 0 <= j < i implies (#[trigger] b[j]).id != id by {
                assert(a[j].id == b[j].id);
            }
        }
        lemma_unsaved_index(b, id, i);
        let x = without_own(a, id);
        let y = without_own(b, id);
        assert forall|k: int| 0 <= k < x.len() implies (#[trigger] x[k]).id == y[k].id
            && x[k].forward == y[k].forward by {
            if k < i {
                assert(x[k] == a[k] && y[k] == b[k]);
            } else {
                assert(x[k] == a[k + 1] && y[k] == b[k + 1]);
            }
        }
    } else if unsaved_index(b, id) is Some {
        let i = unsaved_index(b, id)->0;
        assert(is_first_unsaved(b, id, i));
        assert(is_first_unsaved(a, id, i)) by {
            assert(b[i].id == a[i].id);
            assert forall|j: int| 0 <= j < i implies (#[trigger] a[j]).id != id by {
                assert(a[j].id == b[j].id);
            }
        }
    }
}

/// The first transaction with an identifier is found where it stands.
pub proof fn lemma_unsaved_index(unsaved: Seq<UnsavedView>, id: u128, i: int)
    requires
        is_first_unsaved(unsaved, id, i),
    ensures
        unsaved_index(unsaved, id) == Some(i),
{
    let c = choose|k: int| is_first_unsaved(unsaved, id, k);
    if c < i {
        assert(unsaved[c].id != id);
    } else if i < c {
        assert(unsaved[i].id != id);
    }
}

/// Participants converge.
///
/// Take two participants, each with its own unsaved work layered on top
/// of the same state of the sequencer, at the same sequence number and
/// with the same transactions waiting. When both receive the next
/// transaction, the state underneath their work is the same again, and
/// so are the sequence number and the waiting transactions. Two
/// participants without unsaved work hold the same grid.
pub proof fn participants_converge(
    a: ControllerView,
    b: ControllerView,
    id: u128,
    operations: Seq<Operation>,
    sequence_num: u64,
)
    requires
        layered(a.grid, a.log.unsaved_transactions),
        layered(b.grid, b.log.unsaved_transactions),
        base(a.grid, a.log.unsaved_transactions) == base(b.grid, b.log.unsaved_transactions),
        a.log.last_sequence_num == b.log.last_sequence_num,
        a.log.out_of_order_transactions == b.log.out_of_order_transactions,
        sequence_num == a.log.last_sequence_num + 1,
    ensures
        ({
            let a2 = client_applied(a, incoming(id, operations), sequence_num).0;
            let b2 = client_applied(b, incoming(id, operations), sequence_num).0;
            &&& layered(a2.grid, a2.log.unsaved_transactions)
            &&& layered(b2.grid, b2.log.unsaved_transactions)
            &&& base(a2.grid, a2.log.unsaved_transactions) == base(
                b2.grid,
                b2.log.unsaved_transactions,
            )
            &&& a2.log.last_sequence_num == b2.log.last_sequence_num
            &&& a2.log.out_of_order_transactions == b2.log.out_of_order_transactions
            &&& a2.log.unsaved_transactions.len() == 0 && b2.log.unsaved_transactions.len() == 0
                ==> a2.grid == b2.grid
        }),
{
    next_transaction_goes_underneath(a, id, operations, sequence_num);
    next_transaction_goes_underneath(b, id, operations, sequence_num);
    let a2 = client_applied(a, incoming(id, operations), sequence_num).0;
    let b2 = client_applied(b, incoming(id, operations), sequence_num).0;
    if a2.log.unsaved_transactions.len() == 0 && b2.log.unsaved_transactions.len() == 0 {
        assert(rollback_ops(a2.log.unsaved_transactions) =~= Seq::<Operation>::empty());
        assert(rollback_ops(b2.log.unsaved_transactions) =~= Seq::<Operation>::empty());
    }
}

/// What a participant holds after two transactions in a row took
/// effect: the state underneath, the work that stays unsaved, and the
/// grid with that work on top.
pub open spec fn after_two(
    c: ControllerView,
    r: ControllerView,
    first_id: u128,
    first: Seq<Operation>,
    second_id: u128,
    second: Seq<Operation>,
) -> bool {
    let below = run(
        run(base(c.grid, c.log.unsaved_transactions), incoming(first_id, first)).0,
        helper(second),
    ).0;
    let left = without_own(without_own(c.log.unsaved_transactions, first_id), second_id);
    &&& layered(r.grid, r.log.unsaved_transactions)
    &&& base(r.grid, r.log.unsaved_transactions) == below
    &&& r.grid == apply_ops(below, forward_ops(left))
    &&& same_work(r.log.unsaved_transactions, left)
    &&& r.log.last_sequence_num == c.log.last_sequence_num + 2
    &&& r.log.out_of_order_transactions.len() == 0
}

/// A transaction that is one number too early waits, and nothing else
/// changes.
pub proof fn lemma_too_early(c: ControllerView, id: u128, operations: Seq<Operation>)
    requires
        c.log.out_of_order_transactions.len() == 0,
        c.log.last_sequence_num + 2 <= u64::MAX,
    ensures
        client_applied(c, incoming(id, operations), (c.log.last_sequence_num + 2) as u64).0 == (
        ControllerView {
            log: LogView {
                out_of_order_transactions: seq![
                    incoming(id, operations).to_transaction(
                        Some((c.log.last_sequence_num + 2) as u64),
                    ),
                ],
                ..c.log
            },
            ..c
        }),
{
    let s2 = (c.log.last_sequence_num + 2) as u64;
    let empty = c.log.out_of_order_transactions;
    assert(is_insert_index(empty, s2, 0));
    lemma_insert_index(empty, s2, 0);
    let early = client_applied(c, incoming(id, operations), s2).0;
    assert(early.log.out_of_order_transactions =~= seq![
        incoming(id, operations).to_transaction(Some(s2)),
    ]);
}

/// What is drained when the one waiting transaction is due.
pub proof fn lemma_drain_one(waiting: TransactionView, current: u64)
    requires
        waiting.sequence_num == Some((current + 1) as u64),
        current < u64::MAX,
    ensures
        drain(seq![waiting], current) == (
            Seq::<TransactionView>::empty(),
            waiting.operations,
            (current + 1) as u64,
            seq![waiting.id],
        ),
{
    let none = Seq::<TransactionView>::empty();
    assert(seq![waiting].drop_last() =~= none);
    assert(seq![waiting].last() == waiting);
    assert(drain(none, (current + 1) as u64) == (
        none,
        Seq::<Operation>::empty(),
        (current + 1) as u64,
        Seq::<u128>::empty(),
    ));
    let d = drain(seq![waiting], current);
    assert(d.1 =~= waiting.operations);
    assert(d.3 =~= seq![waiting.id]);
    assert(d.0 =~= Seq::<TransactionView>::empty());
}

/// The transaction with the next number arrives while the one after it
/// waits: both take effect, in the order of their numbers.
pub proof fn lemma_late_arrival(
    c: ControllerView,
    early: ControllerView,
    first_id: u128,
    first: Seq<Operation>,
    second_id: u128,
    second: Seq<Operation>,
)
    requires
        layered(c.grid, c.log.unsaved_transactions),
        c.log.last_sequence_num + 2 <= u64::MAX,
        early == (ControllerView {
            log: LogView {
                out_of_order_transactions: seq![
                    incoming(second_id, second).to_transaction(
                        Some((c.log.last_sequence_num + 2) as u64),
                    ),
                ],
                ..c.log
            },
            ..c
        }),
    ensures
        after_two(
            c,
            client_applied(
                early,
                incoming(first_id, first),
                (c.log.last_sequence_num + 1) as u64,
            ).0,
            first_id,
            first,
            second_id,
            second,
        ),
{
    let s1 = (c.log.last_sequence_num + 1) as u64;
    let s2 = (c.log.last_sequence_num + 2) as u64;
    let waiting = incoming(second_id, second).to_transaction(Some(s2));
    next_transaction_goes_underneath(early, first_id, first, s1);
    lemma_drain_one(waiting, s1);
    let rest = without_own(c.log.unsaved_transactions, first_id);
    assert(seq![second_id].drop_last() =~= Seq::<u128>::empty());
    assert(without_ids(rest, Seq::<u128>::empty()) == rest);
    assert(seq![second_id].last() == second_id);
    assert(without_ids(rest, seq![second_id]) == without_own(rest, second_id));
}

/// Two transactions arrive in the order of their numbers: both take
/// effect as they come.
pub proof fn lemma_in_order(
    c: ControllerView,
    first_id: u128,
    first: Seq<Operation>,
    second_id: u128,
    second: Seq<Operation>,
)
    requires
        layered(c.grid, c.log.unsaved_transactions),
        c.log.out_of_order_transactions.len() == 0,
        c.log.last_sequence_num + 2 <= u64::MAX,
    ensures
        after_two(
            c,
            client_applied(
                client_applied(
                    c,
                    incoming(first_id, first),
                    (c.log.last_sequence_num + 1) as u64,
                ).0,
                incoming(second_id, second),
                (c.log.last_sequence_num + 2) as u64,
            ).0,
            first_id,
            first,
            second_id,
            second,
        ),
{
    let s1 = (c.log.last_sequence_num + 1) as u64;
    let s2 = (c.log.last_sequence_num + 2) as u64;
    let unsaved = c.log.unsaved_transactions;
    let rest = without_own(unsaved, first_id);
    let t2 = incoming(second_id, second);
    next_transaction_goes_underneath(c, first_id, first, s1);
    let b1 = client_applied(c, incoming(first_id, first), s1).0;
    let d0 = drain(c.log.out_of_order_transactions, s1);
    assert(d0.1 =~= Seq::<Operation>::empty());
    assert(without_ids(rest, d0.3) == rest);
    lemma_second_in_order(b1, rest, second_id, second);
}

/// The second of two transactions in order, on a participant that has
/// `rest` left unsaved.
pub proof fn lemma_second_in_order(
    b1: ControllerView,
    rest: Seq<UnsavedView>,
    second_id: u128,
    second: Seq<Operation>,
)
    requires
        layered(b1.grid, b1.log.unsaved_transactions),
        b1.log.out_of_order_transactions.len() == 0,
        b1.log.last_sequence_num + 1 <= u64::MAX,
        same_work(b1.log.unsaved_transactions, rest),
    ensures
        ({
            let b = client_applied(
                b1,
                incoming(second_id, second),
                (b1.log.last_sequence_num + 1) as u64,
            ).0;
            let below = run(base(b1.grid, b1.log.unsaved_transactions), helper(second)).0;
            &&& layered(b.grid, b.log.unsaved_transactions)
            &&& base(b.grid, b.log.unsaved_transactions) == below
            &&& b.grid == apply_ops(below, forward_ops(without_own(rest, second_id)))
            &&& same_work(b.log.unsaved_transactions, without_own(rest, second_id))
            &&& b.log.last_sequence_num == b1.log.last_sequence_num + 1
            &&& b.log.out_of_order_transactions.len() == 0
        }),
{
    let s2 = (b1.log.last_sequence_num + 1) as u64;
    let t2 = incoming(second_id, second);
    next_transaction_goes_underneath(b1, second_id, second, s2);
    let b = client_applied(b1, t2, s2).0;
    let below1 = base(b1.grid, b1.log.unsaved_transactions);
    lemma_run_similar(below1, t2, helper(second));
    lemma_without_own_same(b1.log.unsaved_transactions, rest, second_id);
    let d1 = drain(b1.log.out_of_order_transactions, s2);
    assert(d1.1 =~= Seq::<Operation>::empty());
    let left_b = without_own(b1.log.unsaved_transactions, second_id);
    assert(without_ids(left_b, d1.3) == left_b);
    lemma_forward_ops_same(left_b, without_own(rest, second_id));
    let left = without_own(rest, second_id);
    assert forall|k: int| 0 <= k < b.log.unsaved_transactions.len() implies (
    #[trigger] b.log.unsaved_transactions[k]).id == left[k].id
        && b.log.unsaved_transactions[k].forward == left[k].forward by {
        assert(b.log.unsaved_transactions[k].id == left_b[k].id);
        assert(left_b[k].id == left[k].id);
    }
    assert(run(below1, helper(Seq::<Operation>::empty())).0 == below1);
}

/// The order of arrival does not matter.
///
/// Let nothing be waiting. Whether the transaction with the next number
/// arrives before the one with the number after it, or after it, makes no
/// difference to the grid, to the state underneath the unsaved work, to
/// the work that stays unsaved, or to the log: the transaction that came
/// too early waits, untouched, and both take effect in the order of
/// their numbers.
pub proof fn arrival_order_is_immaterial(
    c: ControllerView,
    first_id: u128,
    first: Seq<Operation>,
    second_id: u128,
    second: Seq<Operation>,
)
    requires
        layered(c.grid, c.log.unsaved_transactions),
        c.log.out_of_order_transactions.len() == 0,
        c.log.last_sequence_num + 2 <= u64::MAX,
    ensures
        ({
            let n = c.log.last_sequence_num;
            let early = client_applied(c, incoming(second_id, second), (n + 2) as u64).0;
            let a = client_applied(early, incoming(first_id, first), (n + 1) as u64).0;
            let b = client_applied(
                client_applied(c, incoming(first_id, first), (n + 1) as u64).0,
                incoming(second_id, second),
                (n + 2) as u64,
            ).0;
            &&& early.grid == c.grid
            &&& early.log.out_of_order_transactions.len() == 1
            &&& early.log.last_sequence_num == n
            &&& a.grid == b.grid
            &&& base(a.grid, a.log.unsaved_transactions) == base(
                b.grid,
                b.log.unsaved_transactions,
            )
            &&& same_work(a.log.unsaved_transactions, b.log.unsaved_transactions)
            &&& a.log.last_sequence_num == n + 2
            &&& b.log.last_sequence_num == n + 2
            &&& a.log.out_of_order_transactions.len() == 0
            &&& b.log.out_of_order_transactions.len() == 0
        }),
{
    let n = c.log.last_sequence_num;
    lemma_too_early(c, second_id, second);
    let early = client_applied(c, incoming(second_id, second), (n + 2) as u64).0;
    lemma_late_arrival(c, early, first_id, first, second_id, second);
    lemma_in_order(c, first_id, first, second_id, second);
    let a = client_applied(early, incoming(first_id, first), (n + 1) as u64).0;
    let b = client_applied(
        client_applied(c, incoming(first_id, first), (n + 1) as u64).0,
        incoming(second_id, second),
        (n + 2) as u64,
    ).0;
    let left = without_own(without_own(c.log.unsaved_transactions, first_id), second_id);
    assert forall|k: int| 0 <= k < a.log.unsaved_transactions.len() implies (
    #[trigger] a.log.unsaved_transactions[k]).id == b.log.unsaved_transactions[k].id
        && a.log.unsaved_transactions[k].forward == b.log.unsaved_transactions[k].forward by {
        assert(a.log.unsaved_transactions[k].id == left[k].id);
        assert(b.log.unsaved_transactions[k].id == left[k].id);
    }
}

/// An unsaved transaction that comes back leaves the grid as it is.
///
/// Let the grid be layered and nothing be waiting. When the oldest
/// unsaved transaction comes back from the sequencer with the next
/// number and the edits that were sent, the grid is the same
/// afterwards, and the transaction is no longer among the unsaved ones;
/// the others stay, in their order.
pub proof fn own_echo_changes_nothing(c: ControllerView, sequence_num: u64)
    requires
        layered(c.grid, c.log.unsaved_transactions),
        c.log.unsaved_transactions.len() > 0,
        c.log.out_of_order_transactions.len() == 0,
        sequence_num == c.log.last_sequence_num + 1,
    ensures
        ({
            let own = c.log.unsaved_transactions[0];
            let c2 = client_applied(c, incoming(own.id, own.forward), sequence_num).0;
            &&& c2.grid == c.grid
            &&& same_work(c2.log.unsaved_transactions, c.log.unsaved_transactions.drop_first())
            &&& c2.log.last_sequence_num == sequence_num
            &&& layered(c2.grid, c2.log.unsaved_transactions)
        }),
{
    let unsaved = c.log.unsaved_transactions;
    let own = unsaved[0];
    next_transaction_goes_underneath(c, own.id, own.forward, sequence_num);
    lemma_base(c.grid, unsaved);
    let below0 = base(c.grid, unsaved);
    assert(is_first_unsaved(unsaved, own.id, 0));
    lemma_unsaved_index(unsaved, own.id, 0);
    let rest = without_own(unsaved, own.id);
    assert(rest =~= unsaved.drop_first());
    let d = drain(c.log.out_of_order_transactions, sequence_num);
    assert(d.1 =~= Seq::<Operation>::empty());
    assert(without_ids(rest, d.3) == rest);
    assert(all_primitive(own.forward));
    lemma_run_primitive(below0, incoming(own.id, own.forward));
    let below1 = apply_ops(below0, own.forward);
    lemma_forward_ops_split(unsaved, 1);
    assert(unsaved.subrange(0, 1) =~= seq![own]);
    assert(unsaved.subrange(1, unsaved.len() as int) =~= rest);
    assert(forward_ops(seq![own]) =~= own.forward) by {
        assert(seq![own].drop_last() =~= Seq::<UnsavedView>::empty());
        assert(forward_ops(seq![own].drop_last()) =~= Seq::<Operation>::empty());
    }
    lemma_apply_ops_concat(below0, own.forward, forward_ops(rest));
}

/// The sequencer is not asked twice within the time to wait.
///
/// Of two announcements of the sequencer's number, the second one no
/// later than the time to wait after the first, at most one makes the
/// controller ask for transactions.
pub proof fn requests_are_throttled(
    c: ControllerView,
    first: u64,
    first_time: i64,
    second: u64,
    second_time: i64,
)
    requires
        second_time <= first_time
            + SECONDS_TO_WAIT_FOR_GET_TRANSACTIONS
            * 1000,
    ensures
        ({
            let (c1, s1) = announced(c, first, first_time);
            let (c2, s2) = announced(c1, second, second_time);
            !(s1.request_transactions is Some && s2.request_transactions is Some)
        }),
{
}

/// The value that the last edit of `ops` to the cell at `sheet_pos`
/// stores there; `None` where no edit of `ops` stores a value there.
pub open spec fn last_write(ops: Seq<Operation>, sheet_pos: SheetPos) -> Option<
    CellValue,
>
    decreases ops.len(),
{
    if ops.len() == 0 {
        None
    } else {
        match ops.last() {
            Operation::SetCellValue { sheet_pos: at, value } => if at == sheet_pos {
                Some(value)
            } else {
                last_write(ops.drop_last(), sheet_pos)
            },
            _ => last_write(ops.drop_last(), sheet_pos),
        }
    }
}

/// Applying edits up to the last one, and then the last one.
pub proof fn lemma_apply_ops_last(g: GridView, ops: Seq<Operation>)
    requires
        ops.len() > 0,
    ensures
        apply_ops(g, ops) == apply_op(
            apply_ops(g, ops.drop_last()),
            ops.last(),
        ),
{
    assert(ops =~= ops.drop_last() + seq![ops.last()]);
    lemma_apply_ops_concat(g, ops.drop_last(), seq![ops.last()]);
    let h = apply_ops(g, ops.drop_last());
    assert(seq![ops.last()].drop_first() =~= Seq::<Operation>::empty());
    assert(apply_ops(h, seq![ops.last()]) == apply_ops(
        apply_op(h, seq![ops.last()][0]),
        seq![ops.last()].drop_first(),
    ));
}

/// After a list of edits, a cell holds what the last edit to it stored,
/// and what it held before where none of the edits stores a value there.
pub proof fn lemma_last_write(
    g: GridView,
    ops: Seq<Operation>,
    sheet_pos: SheetPos,
    i: int,
)
    requires
        grid_wf(g),
        sheet_index(g, sheet_pos.sheet_id) == Some(i),
    ensures
        sheet_index(apply_ops(g, ops), sheet_pos.sheet_id) == Some(i),
        apply_ops(g, ops)[i].cell(sheet_pos.spec_pos()) == match last_write(ops, sheet_pos) {
            Some(v) => v,
            None => g[i].cell(sheet_pos.spec_pos()),
        },
    decreases ops.len(),
{
    lemma_apply_ops_wf(g, ops);
    lemma_same_ids(g, apply_ops(g, ops));
    if ops.len() > 0 {
        let before = ops.drop_last();
        let op = ops.last();
        let h = apply_ops(g, before);
        lemma_last_write(g, before, sheet_pos, i);
        lemma_apply_ops_last(g, ops);
        lemma_apply_ops_wf(g, before);
        lemma_same_ids(g, h);
        if applies(h, op) {
            let j = sheet_index(h, op.spec_sheet_id())->0;
            assert(is_first_sheet(h, op.spec_sheet_id(), j));
            assert(is_first_sheet(h, sheet_pos.sheet_id, i));
            match op {
                Operation::SetCellValue { sheet_pos: at, value } => {
                    if j == i {
                        h[i].lemma_with_cell(at.spec_pos(), value);
                        assert(at.sheet_id == sheet_pos.sheet_id);
                        if at.spec_pos() == sheet_pos.spec_pos() {
                            assert(at == sheet_pos);
                        }
                    }
                },
                _ => {},
            }
        }
    }
}

/// A run leaves the sheets where they are.
pub proof fn lemma_run_sheets(g: GridView, t: PendingView, id: SheetId)
    requires
        grid_wf(g),
    ensures
        sheet_index(
            run(g, PendingView::new(t.id, t.transaction_type, t.operations, t.cursor)).0,
            id,
        ) == sheet_index(g, id),
{
    let fresh = PendingView::new(t.id, t.transaction_type, t.operations, t.cursor);
    assert(apply_ops(g, fresh.forward_operations) == g);
    assert(apply_ops(g, fresh.reverse_operations) == g);
    lemma_run_consistent(g, g, fresh);
    lemma_apply_ops_wf(g, run(g, fresh).1.forward_operations);
    lemma_same_ids(g, run(g, fresh).0);
}

/// Local work stays on top.
///
/// Let the grid be layered, and let the transaction with the next number
/// be received. A cell to which an unsaved transaction that stays
/// unsaved has stored a value holds, after the reconciliation, what the
/// last such edit stored there, whatever the received transaction and
/// the waiting ones have stored in it. Unless that value is blank or
/// the source of a code cell, it is what the cell shows.
pub proof fn local_edit_stays_on_top(
    c: ControllerView,
    id: u128,
    operations: Seq<Operation>,
    sequence_num: u64,
    sheet_pos: SheetPos,
)
    requires
        layered(c.grid, c.log.unsaved_transactions),
        sequence_num == c.log.last_sequence_num + 1,
        sheet_index(c.grid, sheet_pos.sheet_id) is Some,
        last_write(
            forward_ops(
                still_unsaved(
                    c.log.unsaved_transactions,
                    id,
                    c.log.out_of_order_transactions,
                    sequence_num,
                ),
            ),
            sheet_pos,
        ) is Some,
    ensures
        ({
            let c2 = client_applied(c, incoming(id, operations), sequence_num).0;
            let i = sheet_index(c.grid, sheet_pos.sheet_id)->0;
            let local = last_write(
                forward_ops(
                    still_unsaved(
                        c.log.unsaved_transactions,
                        id,
                        c.log.out_of_order_transactions,
                        sequence_num,
                    ),
                ),
                sheet_pos,
            )->0;
            &&& sheet_index(c2.grid, sheet_pos.sheet_id) == Some(i)
            &&& c2.grid[i].cell(sheet_pos.spec_pos()) == local
            &&& !(local is Blank) && !(local is Code) ==> c2.grid[i].display(
                sheet_pos.spec_pos(),
            ) == Some(local)
        }),
{
    let unsaved = c.log.unsaved_transactions;
    let i = sheet_index(c.grid, sheet_pos.sheet_id)->0;
    next_transaction_goes_underneath(c, id, operations, sequence_num);
    lemma_base(c.grid, unsaved);
    let below0 = base(c.grid, unsaved);
    lemma_apply_ops_wf(c.grid, rollback_ops(unsaved));
    lemma_same_ids(c.grid, below0);
    let t = incoming(id, operations);
    lemma_run_sheets(below0, t, sheet_pos.sheet_id);
    lemma_run_wf(below0, t);
    let below1 = run(below0, t).0;
    let due = helper(drain(c.log.out_of_order_transactions, sequence_num).1);
    lemma_run_sheets(below1, due, sheet_pos.sheet_id);
    lemma_run_wf(below1, due);
    let below = run(below1, due).0;
    let left = still_unsaved(unsaved, id, c.log.out_of_order_transactions, sequence_num);
    lemma_last_write(below, forward_ops(left), sheet_pos, i);
    let c2 = client_applied(c, incoming(id, operations), sequence_num).0;
    let local = c2.grid[i].cell(sheet_pos.spec_pos());
    if !(local is Blank) && !(local is Code) {
        c2.grid[i].lemma_shows(sheet_pos.spec_pos());
    }
}

/// Undoing changes the cells of the undone transaction only.
///
/// A cell to which the edits on top of the undo stack store no value
/// holds after the undo what it held before: what others have stored in
/// it meanwhile stays.
pub proof fn undo_leaves_other_cells(
    c: ControllerView,
    id: u128,
    cursor: Option<String>,
    sheet_pos: SheetPos,
)
    requires
        grid_wf(c.grid),
        c.undo_stack.len() > 0,
        all_primitive(c.undo_stack.last().operations),
        sheet_index(c.grid, sheet_pos.sheet_id) is Some,
        last_write(c.undo_stack.last().operations, sheet_pos) is None,
    ensures
        ({
            let c2 = undone(c, id, cursor).0;
            let i = sheet_index(c.grid, sheet_pos.sheet_id)->0;
            &&& sheet_index(c2.grid, sheet_pos.sheet_id) == Some(i)
            &&& c2.grid[i].cell(sheet_pos.spec_pos()) == c.grid[i].cell(sheet_pos.spec_pos())
            &&& c2.grid == apply_ops(c.grid, c.undo_stack.last().operations)
        }),
{
    let ops = c.undo_stack.last().operations;
    let i = sheet_index(c.grid, sheet_pos.sheet_id)->0;
    let t = PendingView::new(id, TransactionType::Undo, ops, cursor);
    lemma_run_primitive(c.grid, t);
    lemma_last_write(c.grid, ops, sheet_pos, i);
}

/// A fresh controller is layered: it has no unsaved work.
pub proof fn new_controller_is_layered(grid: GridView, last_sequence_num: u64)
    requires
        grid_wf(grid),
    ensures
        layered(
            ControllerView::from_grid(grid, last_sequence_num).grid,
            ControllerView::from_grid(grid, last_sequence_num).log.unsaved_transactions,
        ),
{
}

/// Local work keeps the grid layered.
///
/// A transaction made here that is carried out to its end, on a layered
/// grid, leaves a layered grid: it is the newest layer, and its undoing
/// edits lead back to the grid before it.
pub proof fn local_work_is_layered(
    c: ControllerView,
    id: u128,
    transaction_type: TransactionType,
    operations: Seq<Operation>,
    cursor: Option<String>,
)
    requires
        layered(c.grid, c.log.unsaved_transactions),
        transaction_type.spec_is_local(),
        started(c, PendingView::new(id, transaction_type, operations, cursor)).1.complete,
    ensures
        ({
            let c2 = local_transaction(
                c,
                id,
                transaction_type,
                operations,
                cursor,
            ).0;
            layered(c2.grid, c2.log.unsaved_transactions)
        }),
{
    let t = PendingView::new(id, transaction_type, operations, cursor);
    assert(apply_ops(c.grid, t.forward_operations) == c.grid);
    assert(apply_ops(c.grid, t.reverse_operations) == c.grid);
    lemma_run_consistent(c.grid, c.grid, t);
    lemma_run_keeps(c.grid, t);
    let (c1, t1) = started(c, t);
    let (g1, r1) = run(c.grid, t);
    assert(c1.grid == g1);
    assert(t1.forward_operations == r1.forward_operations);
    assert(t1.reverse_operations == r1.reverse_operations);
    assert(c1.log.unsaved_transactions == c.log.unsaved_transactions);
    let c2 = finalized(c1, t1);
    assert(c2.grid == g1);
    if t1.forward_operations.len() == 0 {
        assert(apply_ops(c.grid, t1.forward_operations) == c.grid);
        assert(c2.log.unsaved_transactions == c.log.unsaved_transactions);
    } else {
        let u = UnsavedView {
            id: t1.id,
            forward: t1.forward_operations,
            reverse: t1.reverse_operations,
        };
        assert(c2.log.unsaved_transactions == c.log.unsaved_transactions.push(u));
        assert(c2.log.unsaved_transactions.drop_last() =~= c.log.unsaved_transactions);
        assert(c2.log.unsaved_transactions.last() == u);
    }
}

/// A local transaction that is sent and received back.
///
/// Let a participant without unsaved work, and with nothing waiting,
/// make a transaction that is carried out to its end and changes
/// something. Its summary hands the edits that were carried out over for
/// the sequencer. When these come back under the same identifier with
/// the next number, the grid is what it was right after the transaction
/// was made, and no unsaved work is left.
pub proof fn sent_and_received_back(
    c: ControllerView,
    id: u128,
    operations: Seq<Operation>,
    cursor: Option<String>,
)
    requires
        grid_wf(c.grid),
        c.log.unsaved_transactions.len() == 0,
        c.log.out_of_order_transactions.len() == 0,
        c.log.last_sequence_num < u64::MAX,
        started(
            c,
            PendingView::new(
                id,
                TransactionType::User,
                operations,
                cursor,
            ),
        ).1.complete,
        started(
            c,
            PendingView::new(
                id,
                TransactionType::User,
                operations,
                cursor,
            ),
        ).1.forward_operations.len() > 0,
    ensures
        ({
            let (c1, summary) = local_transaction(
                c,
                id,
                TransactionType::User,
                operations,
                cursor,
            );
            &&& summary.operations is Some
            &&& c1.log.unsaved_transactions.len() == 1
            &&& client_applied(
                c1,
                incoming(id, summary.operations->0),
                (c.log.last_sequence_num + 1) as u64,
            ).0.grid == c1.grid
            &&& client_applied(
                c1,
                incoming(id, summary.operations->0),
                (c.log.last_sequence_num + 1) as u64,
            ).0.log.unsaved_transactions.len() == 0
            &&& client_applied(
                c1,
                incoming(id, summary.operations->0),
                (c.log.last_sequence_num + 1) as u64,
            ).0.log.last_sequence_num == c.log.last_sequence_num + 1
        }),
{
    let kind = TransactionType::User;
    let t = PendingView::new(id, kind, operations, cursor);
    lemma_run_keeps(c.grid, t);
    let (c0, t0) = started(c, t);
    local_work_is_layered(c, id, kind, operations, cursor);
    let c1 = finalized(c0, t0);
    lemma_sent(c0, t0);
    own_echo_changes_nothing(c1, (c.log.last_sequence_num + 1) as u64);
}

/// What is kept of a user's transaction that has come to its end and
/// has changed something, where no unsaved work was there before.
pub proof fn lemma_sent(c0: ControllerView, t0: PendingView)
    requires
        t0.complete,
        t0.forward_operations.len() > 0,
        t0.transaction_type == TransactionType::User,
        c0.log.unsaved_transactions.len() == 0,
    ensures
        finalized(c0, t0).log.unsaved_transactions == seq![
            UnsavedView {
                id: t0.id,
                forward: t0.forward_operations,
                reverse: t0.reverse_operations,
            },
        ],
        finalized(c0, t0).grid == c0.grid,
        finalized(c0, t0).log.last_sequence_num
            == c0.log.last_sequence_num,
        finalized(c0, t0).log.out_of_order_transactions
            == c0.log.out_of_order_transactions,
{
    assert(finalized(c0, t0).log.unsaved_transactions =~= seq![
        UnsavedView {
            id: t0.id,
            forward: t0.forward_operations,
            reverse: t0.reverse_operations,
        },
    ]);
}

/// Receiving keeps the grid layered.
///
/// Whatever number a received transaction has, a layered grid is
/// layered afterwards. A transaction that is not the next one leaves
/// the grid and the unsaved work as they are.
pub proof fn receipt_keeps_layers(
    c: ControllerView,
    id: u128,
    operations: Seq<Operation>,
    sequence_num: u64,
)
    requires
        layered(c.grid, c.log.unsaved_transactions),
    ensures
        ({
            let (c2, t2) = client_applied(c, incoming(id, operations), sequence_num);
            let kept = finalized(c2, t2);
            &&& layered(c2.grid, c2.log.unsaved_transactions)
            &&& kept.grid == c2.grid
            &&& kept.log.unsaved_transactions == c2.log.unsaved_transactions
            &&& sequence_num != c.log.last_sequence_num + 1 ==> c2.grid == c.grid
                && c2.log.unsaved_transactions == c.log.unsaved_transactions
        }),
{
    let t = incoming(id, operations);
    if sequence_num == c.log.last_sequence_num + 1 {
        next_transaction_goes_underneath(c, id, operations, sequence_num);
    }
    lemma_client_applied_keeps(c, t, sequence_num);
}

/// Reconciling leaves the kind of the received transaction alone.
pub proof fn lemma_client_applied_keeps(c: ControllerView, t: PendingView, sequence_num: u64)
    requires
        !t.transaction_type.spec_is_local(),
        t.waiting_for_async is None,
    ensures
        client_applied(c, t, sequence_num).1.transaction_type == t.transaction_type,
{
    if sequence_num == c.log.last_sequence_num + 1 {
        let (c1, t1) = rolled_back(c, t);
        let rest = without_own(c1.log.unsaved_transactions, t1.id);
        let c1b = ControllerView {
            log: LogView { unsaved_transactions: rest, ..c1.log },
            ..c1
        };
        lemma_run_keeps(c1b.grid, t1);
        let (c2, t2) = started(c1b, t1);
        let (c3, t3) = applied_out_of_order(c2, t2, sequence_num);
        let (c4, t4) = core_applied(c1, t1, sequence_num);
        assert(t4.transaction_type == t.transaction_type);
        lemma_reapplied_keeps_type(c4, t4, 0);
    }
}

/// Carrying unsaved work out again leaves the kind of the transaction
/// that gathers the changes alone.
pub proof fn lemma_reapplied_keeps_type(c: ControllerView, t: PendingView, i: int)
    ensures
        reapplied_from(c, t, i).1.transaction_type
            == t.transaction_type,
    decreases c.log.unsaved_transactions.len() - i,
{
    if !(i < 0 || i >= c.log.unsaved_transactions.len()) {
        let (c2, p) = reapplied_one(c, i);
        lemma_reapplied_keeps_type(c2, t.absorb(p), i + 1);
    }
}

} // verus!
