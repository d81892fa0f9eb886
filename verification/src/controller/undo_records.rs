//! What the undo stack and the redo stack hold.
//!
//! A controller built by this library keeps primitive edits only on its
//! two stacks: it starts with empty stacks, its own transactions put on
//! them what their runs recorded, and what the sequencer sends leaves
//! them alone.

use crate::controller::calculation::{completed, resume_ops};
use crate::controller::execution::model::{
    flip_op, lemma_run_consistent, lemma_run_keeps, lemma_run_primitive, lemma_step_decreases,
    performed, run, runs_len, step, swept,
};
use crate::controller::execution::reconcile::{
    batch_applied, client_applied, core_applied, drain, forward_ops, helper, incoming,
    reapplied_from,
    reapplied_one, received_batch, rollback_ops, rolled_back, without_ids, without_own,
    ServerTransactionView,
};
use crate::controller::execution::{finalized, put_async, started, without_async};
use crate::controller::grid_controller::ControllerView;
use crate::controller::guarantees::{
    last_write, lemma_last_write, lemma_run_sheets, lemma_run_wf, local_work_is_layered,
    next_transaction_goes_underneath, receipt_keeps_layers, still_unsaved,
    undo_leaves_other_cells,
};
use crate::controller::layers::{base, layered, lemma_base};
use crate::controller::operation::{
    all_primitive, apply_ops, lemma_apply_ops_concat, lemma_apply_ops_wf, lemma_same_ids,
    Operation,
};
use crate::controller::pending_transaction::PendingView;
use crate::controller::transaction::{TransactionType, TransactionView, UnsavedView};
use crate::controller::transactions::{async_index, LogView};
use crate::controller::user_actions::{local_transaction, redone, undone};
use crate::grid::{grid_wf, sheet_index, GridView};
use crate::position::{Rect, SheetId, SheetPos};
use crate::values::{CellValue, CodeRun};
use vstd::prelude::*;

verus! {

/// Whether every transaction of `stack` is made of primitive edits.
pub open spec fn stack_primitive(stack: Seq<TransactionView>) -> bool {
    forall|i: int| 0 <= i < stack.len() ==> all_primitive((#[trigger] stack[i]).operations)
}

/// Whether the undo stack and the redo stack hold primitive edits only,
/// and every suspended transaction has recorded primitive edits only to
/// take it back.
pub open spec fn stacks_primitive(c: ControllerView) -> bool {
    &&& stack_primitive(c.undo_stack)
    &&& stack_primitive(c.redo_stack)
    &&& forall|i: int|
        0 <= i < c.log.async_transactions.len() ==> all_primitive(
            (#[trigger] c.log.async_transactions[i]).reverse_operations,
        )
}

/// Carrying out a primitive edit records a primitive edit to take it back.
pub proof fn lemma_performed_records(g: GridView, t: PendingView, op: Operation)
    requires
        all_primitive(t.reverse_operations),
        op.is_primitive(),
    ensures
        all_primitive(performed(g, t, op).1.reverse_operations),
{
}

/// A check for spills records primitive edits.
pub proof fn lemma_swept_records(
    g: GridView,
    t: PendingView,
    sheet_id: SheetId,
    i: int,
    n: int,
    rect: Option<Rect>,
)
    requires
        all_primitive(t.reverse_operations),
    ensures
        all_primitive(swept(g, t, sheet_id, i, n, rect).1.reverse_operations),
    decreases n - i,
{
    match sheet_index(g, sheet_id) {
        None => {},
        Some(si) => {
            if !(i < 0 || i >= n || i >= g[si].code_runs.len()) {
                let (pos, run) = g[si].code_runs[i];
                let blocked = g[si].blocked(i);
                let in_scope = match rect {
                    Some(r) => run.spec_output_rect(pos, true).spec_intersects(r),
                    None => true,
                };
                if in_scope && blocked != run.spill_error {
                    let op = flip_op(g[si], i, blocked);
                    let (g2, t2) = performed(g, t, op);
                    lemma_performed_records(g, t, op);
                    lemma_swept_records(g2, t2, sheet_id, i + 1, n, None);
                } else {
                    lemma_swept_records(g, t, sheet_id, i + 1, n, rect);
                }
            }
        },
    }
}

/// A step records primitive edits.
pub proof fn lemma_step_records(g: GridView, t: PendingView)
    requires
        all_primitive(t.reverse_operations),
        t.operations.len() > 0,
    ensures
        all_primitive(step(g, t).1.reverse_operations),
{
    let op = t.operations[0];
    let rest = PendingView { operations: t.operations.drop_first(), ..t };
    match op {
        Operation::CheckSpills { sheet_rect } => {
            lemma_swept_records(
                g,
                rest,
                sheet_rect.sheet_id,
                0,
                runs_len(g, sheet_rect.sheet_id),
                Some(sheet_rect.spec_rect()),
            );
        },
        Operation::CheckAllSpills { sheet_id } => {
            lemma_swept_records(g, rest, sheet_id, 0, runs_len(g, sheet_id), None);
        },
        Operation::MoveCells { .. } => {},
        Operation::ComputeCode { .. } => {},
        _ => {
            lemma_performed_records(g, rest, op);
        },
    }
}

/// A run records primitive edits only to take it back.
pub proof fn lemma_run_records(g: GridView, t: PendingView)
    requires
        all_primitive(t.reverse_operations),
    ensures
        all_primitive(run(g, t).1.reverse_operations),
    decreases crate::controller::execution::model::expanding(t.operations), t.operations.len(),
{
    if !(t.operations.len() == 0 || t.waiting_for_async is Some) {
        lemma_step_decreases(g, t);
        lemma_step_records(g, t);
        let (g2, t2) = step(g, t);
        lemma_run_records(g2, t2);
    }
}

/// Putting a transaction among the suspended ones, or taking one out,
/// keeps primitive edits there.
pub proof fn lemma_suspended_kept(pending: Seq<PendingView>, t: PendingView)
    requires
        forall|i: int|
            0 <= i < pending.len() ==> all_primitive((#[trigger] pending[i]).reverse_operations),
    ensures
        all_primitive(t.reverse_operations) ==> forall|i: int|
            0 <= i < put_async(pending, t).len() ==> all_primitive(
                (#[trigger] put_async(pending, t)[i]).reverse_operations,
            ),
        forall|i: int|
            0 <= i < without_async(pending, t.id).len() ==> all_primitive(
                (#[trigger] without_async(pending, t.id)[i]).reverse_operations,
            ),
{
    let less = without_async(pending, t.id);
    assert forall|i: int| 0 <= i < less.len() implies all_primitive(
        (#[trigger] less[i]).reverse_operations,
    ) by {
        match async_index(pending, t.id) {
            Some(k) => {
                if i < k {
                    assert(less[i] == pending[i]);
                } else {
                    assert(less[i] == pending[i + 1]);
                }
            },
            None => {},
        }
    }
    if all_primitive(t.reverse_operations) {
        let more = put_async(pending, t);
        assert forall|i: int| 0 <= i < more.len() implies all_primitive(
            (#[trigger] more[i]).reverse_operations,
        ) by {
            match async_index(pending, t.id) {
                Some(k) => {
                    if i != k {
                        assert(more[i] == pending[i]);
                    }
                },
                None => {
                    if i < pending.len() {
                        assert(more[i] == pending[i]);
                    }
                },
            }
        }
    }
}

/// A transaction that is carried out and then kept or put aside leaves
/// primitive edits on the stacks and among the suspended transactions.
pub proof fn lemma_carried_out(c: ControllerView, t: PendingView)
    requires
        stacks_primitive(c),
        all_primitive(t.reverse_operations),
    ensures
        stacks_primitive(started(c, t).0),
        stacks_primitive(finalized(started(c, t).0, started(c, t).1)),
        all_primitive(started(c, t).1.reverse_operations),
{
    lemma_run_records(c.grid, t);
    let (g, t2) = run(c.grid, t);
    lemma_suspended_kept(c.log.async_transactions, t2);
    let (c1, t1) = started(c, t);
    assert(t1.reverse_operations == t2.reverse_operations);
    assert(t1.id == t2.id);
    assert(stacks_primitive(c1));
    lemma_suspended_kept(c1.log.async_transactions, t1);
    let c2 = finalized(c1, t1);
    assert(all_primitive(t1.reverse().operations));
    assert forall|i: int| 0 <= i < c2.undo_stack.len() implies all_primitive(
        (#[trigger] c2.undo_stack[i]).operations,
    ) by {
        if i < c1.undo_stack.len() {
            assert(c2.undo_stack[i] == c1.undo_stack[i]);
        }
    }
    assert forall|i: int| 0 <= i < c2.redo_stack.len() implies all_primitive(
        (#[trigger] c2.redo_stack[i]).operations,
    ) by {
        if i < c1.redo_stack.len() {
            assert(c2.redo_stack[i] == c1.redo_stack[i]);
        }
    }
}

/// A fresh controller has nothing on its stacks.
pub proof fn new_controller_has_empty_stacks(grid: GridView, last_sequence_num: u64)
    ensures
        stacks_primitive(ControllerView::from_grid(grid, last_sequence_num)),
{
}

/// A transaction made here puts primitive edits on the stacks.
///
/// Whatever edits and requests a transaction made here is given, what it
/// leaves on the undo stack or the redo stack is made of primitive
/// edits, whether it comes to its end or has to wait.
pub proof fn local_work_keeps_stacks(
    c: ControllerView,
    id: u128,
    transaction_type: TransactionType,
    operations: Seq<Operation>,
    cursor: Option<String>,
)
    requires
        stacks_primitive(c),
    ensures
        stacks_primitive(local_transaction(c, id, transaction_type, operations, cursor).0),
{
    lemma_carried_out(c, PendingView::new(id, transaction_type, operations, cursor));
}

/// The result of a computation keeps primitive edits on the stacks.
///
/// When the result for a suspended transaction comes in and the
/// transaction goes on, what it leaves on the stacks is made of
/// primitive edits.
pub proof fn completion_keeps_stacks(c: ControllerView, id: u128, result: CodeRun)
    requires
        stacks_primitive(c),
        completed(c, id, result) is Ok,
    ensures
        stacks_primitive(completed(c, id, result)->Ok_0.0),
{
    let i = async_index(c.log.async_transactions, id)->0;
    let t = c.log.async_transactions[i];
    let request = t.waiting_for_async->0;
    lemma_carried_out(
        c,
        PendingView {
            waiting_for_async: None,
            operations: resume_ops(request, result) + t.operations,
            ..t
        },
    );
}

/// Taking the top off a stack keeps primitive edits on the stacks.
pub proof fn lemma_popped(c: ControllerView)
    requires
        stacks_primitive(c),
    ensures
        c.undo_stack.len() > 0 ==> stacks_primitive(
            ControllerView { undo_stack: c.undo_stack.drop_last(), ..c },
        ) && all_primitive(c.undo_stack.last().operations),
        c.redo_stack.len() > 0 ==> stacks_primitive(
            ControllerView { redo_stack: c.redo_stack.drop_last(), ..c },
        ) && all_primitive(c.redo_stack.last().operations),
{
    if c.undo_stack.len() > 0 {
        let less = c.undo_stack.drop_last();
        assert forall|i: int| 0 <= i < less.len() implies all_primitive(
            (#[trigger] less[i]).operations,
        ) by {
            assert(less[i] == c.undo_stack[i]);
        }
    }
    if c.redo_stack.len() > 0 {
        let less = c.redo_stack.drop_last();
        assert forall|i: int| 0 <= i < less.len() implies all_primitive(
            (#[trigger] less[i]).operations,
        ) by {
            assert(less[i] == c.redo_stack[i]);
        }
    }
}

/// Undoing and redoing keep primitive edits on the stacks.
pub proof fn undo_and_redo_keep_stacks(c: ControllerView, id: u128, cursor: Option<String>)
    requires
        stacks_primitive(c),
    ensures
        stacks_primitive(undone(c, id, cursor).0),
        stacks_primitive(redone(c, id, cursor).0),
{
    lemma_popped(c);
    if c.undo_stack.len() > 0 {
        local_work_keeps_stacks(
            ControllerView { undo_stack: c.undo_stack.drop_last(), ..c },
            id,
            TransactionType::Undo,
            c.undo_stack.last().operations,
            cursor,
        );
    }
    if c.redo_stack.len() > 0 {
        local_work_keeps_stacks(
            ControllerView { redo_stack: c.redo_stack.drop_last(), ..c },
            id,
            TransactionType::Redo,
            c.redo_stack.last().operations,
            cursor,
        );
    }
}

/// A run of a transaction that was not made here never waits, so that
/// carrying it out leaves the stacks and the suspended transactions
/// alone.
pub proof fn lemma_started_remote_keeps(c: ControllerView, t: PendingView)
    requires
        !t.transaction_type.spec_is_local(),
        t.waiting_for_async is None,
    ensures
        started(c, t).0.undo_stack == c.undo_stack,
        started(c, t).0.redo_stack == c.redo_stack,
        started(c, t).0.log.async_transactions == c.log.async_transactions,
        started(c, t).0.log.unsaved_transactions == c.log.unsaved_transactions,
        started(c, t).1.has_async == t.has_async,
        started(c, t).1.transaction_type == t.transaction_type,
{
    lemma_run_keeps(c.grid, t);
}

/// Carrying unsaved work out again leaves the stacks and the suspended
/// transactions alone.
pub proof fn lemma_reapplied_keeps_stacks(c: ControllerView, t: PendingView, i: int)
    ensures
        reapplied_from(c, t, i).0.undo_stack == c.undo_stack,
        reapplied_from(c, t, i).0.redo_stack == c.redo_stack,
        reapplied_from(c, t, i).0.log.async_transactions == c.log.async_transactions,
        reapplied_from(c, t, i).1.has_async == t.has_async,
        reapplied_from(c, t, i).1.transaction_type == t.transaction_type,
    decreases c.log.unsaved_transactions.len() - i,
{
    if !(i < 0 || i >= c.log.unsaved_transactions.len()) {
        let u = c.log.unsaved_transactions[i];
        lemma_started_remote_keeps(
            c,
            PendingView::new(u.id, TransactionType::Multiplayer, u.forward, None),
        );
        let (c2, p) = reapplied_one(c, i);
        lemma_reapplied_keeps_stacks(c2, t.absorb(p), i + 1);
    }
}

/// A transaction of the sequencer that takes effect, is put aside or is
/// dropped leaves the stacks and the suspended transactions alone.
pub proof fn lemma_core_applied_keeps(c: ControllerView, t: PendingView, sequence_num: u64)
    requires
        !t.transaction_type.spec_is_local(),
        t.waiting_for_async is None,
    ensures
        core_applied(c, t, sequence_num).0.undo_stack == c.undo_stack,
        core_applied(c, t, sequence_num).0.redo_stack == c.redo_stack,
        core_applied(c, t, sequence_num).0.log.async_transactions == c.log.async_transactions,
        core_applied(c, t, sequence_num).1.has_async == t.has_async,
        core_applied(c, t, sequence_num).1.transaction_type == t.transaction_type,
{
    if sequence_num == c.log.last_sequence_num + 1 {
        let c1 = ControllerView {
            log: LogView {
                unsaved_transactions: without_own(c.log.unsaved_transactions, t.id),
                ..c.log
            },
            ..c
        };
        lemma_started_remote_keeps(c1, t);
        let (c2, t2) = started(c1, t);
        let (rest, ops, last, ids) = drain(c2.log.out_of_order_transactions, sequence_num);
        let c2b = ControllerView {
            log: LogView {
                out_of_order_transactions: rest,
                unsaved_transactions: without_ids(c2.log.unsaved_transactions, ids),
                ..c2.log
            },
            ..c2
        };
        lemma_started_remote_keeps(c2b, helper(ops));
    }
}

/// The transactions of a batch leave the stacks and the suspended
/// transactions alone.
pub proof fn lemma_batch_applied_keeps(
    c: ControllerView,
    results: PendingView,
    batch: Seq<ServerTransactionView>,
    i: int,
)
    ensures
        batch_applied(c, results, batch, i).0.undo_stack == c.undo_stack,
        batch_applied(c, results, batch, i).0.redo_stack == c.redo_stack,
        batch_applied(c, results, batch, i).0.log.async_transactions == c.log.async_transactions,
        batch_applied(c, results, batch, i).1.has_async == results.has_async,
        batch_applied(c, results, batch, i).1.transaction_type == results.transaction_type,
    decreases batch.len() - i,
{
    if !(i < 0 || i >= batch.len()) {
        let t = incoming(batch[i].id, batch[i].operations);
        lemma_core_applied_keeps(c, t, batch[i].sequence_num);
        let (c2, t2) = core_applied(c, t, batch[i].sequence_num);
        lemma_batch_applied_keeps(c2, results.absorb(t2), batch, i + 1);
    }
}

/// What is received leaves the stacks alone.
///
/// Whatever number a received transaction has and whatever it holds,
/// the undo stack, the redo stack and the suspended transactions are
/// afterwards what they were, and the bookkeeping at the end changes
/// nothing.
pub proof fn receipt_leaves_stacks(
    c: ControllerView,
    id: u128,
    operations: Seq<Operation>,
    sequence_num: u64,
)
    ensures
        ({
            let (c2, t2) = client_applied(c, incoming(id, operations), sequence_num);
            &&& finalized(c2, t2).undo_stack == c.undo_stack
            &&& finalized(c2, t2).redo_stack == c.redo_stack
            &&& finalized(c2, t2).log.async_transactions == c.log.async_transactions
            &&& finalized(c2, t2) == c2
            &&& stacks_primitive(c) ==> stacks_primitive(finalized(c2, t2))
        }),
{
    let t = incoming(id, operations);
    if sequence_num == c.log.last_sequence_num + 1 {
        if c.log.unsaved_transactions.len() > 0 {
            lemma_started_remote_keeps(c, helper(rollback_ops(c.log.unsaved_transactions)));
        }
        let (c1, t1) = rolled_back(c, t);
        lemma_core_applied_keeps(c1, t1, sequence_num);
        let (c3, t3) = core_applied(c1, t1, sequence_num);
        lemma_reapplied_keeps_stacks(c3, t3, 0);
        let (c4, t4) = reapplied_from(c3, t3, 0);
        assert(client_applied(c, t, sequence_num) == (c4, t4));
        assert(!t4.has_async);
        assert(!t4.transaction_type.spec_is_local());
        assert(finalized(c4, t4).undo_stack == c.undo_stack);
    } else {
        lemma_core_applied_keeps(c, t, sequence_num);
    }
}

/// A batch that is received leaves the stacks alone.
///
/// Whatever a batch of the sequencer holds, the undo stack, the redo
/// stack and the suspended transactions are afterwards what they were.
pub proof fn batch_leaves_stacks(c: ControllerView, batch: Seq<ServerTransactionView>)
    ensures
        ({
            let (c2, t2) = received_batch(c, batch);
            &&& finalized(c2, t2).undo_stack == c.undo_stack
            &&& finalized(c2, t2).redo_stack == c.redo_stack
            &&& finalized(c2, t2).log.async_transactions == c.log.async_transactions
            &&& finalized(c2, t2).grid == c2.grid
            &&& finalized(c2, t2).log.unsaved_transactions == c2.log.unsaved_transactions
            &&& stacks_primitive(c) ==> stacks_primitive(finalized(c2, t2))
        }),
{
    if c.log.unsaved_transactions.len() > 0 {
        lemma_started_remote_keeps(c, helper(rollback_ops(c.log.unsaved_transactions)));
    }
    let first = incoming(0, Seq::empty());
    let (b1, r1) = rolled_back(c, first);
    lemma_batch_applied_keeps(b1, r1, batch, 0);
    let (b2, r2) = batch_applied(b1, r1, batch, 0);
    lemma_reapplied_keeps_stacks(b2, r2, 0);
    let (b3, r3) = reapplied_from(b2, r2, 0);
    let done = PendingView { complete: true, ..r3 };
    assert(received_batch(c, batch) == (b3, done));
    assert(!done.has_async);
    assert(!done.transaction_type.spec_is_local());
    assert(finalized(b3, done).undo_stack == c.undo_stack);
}

/// What is received leaves the sheets where they are.
pub proof fn receipt_keeps_sheets(
    c: ControllerView,
    id: u128,
    operations: Seq<Operation>,
    sequence_num: u64,
    sheet_id: SheetId,
)
    requires
        layered(c.grid, c.log.unsaved_transactions),
    ensures
        sheet_index(
            client_applied(c, incoming(id, operations), sequence_num).0.grid,
            sheet_id,
        ) == sheet_index(c.grid, sheet_id),
{
    receipt_keeps_layers(c, id, operations, sequence_num);
    if sequence_num == c.log.last_sequence_num + 1 {
        let unsaved = c.log.unsaved_transactions;
        next_transaction_goes_underneath(c, id, operations, sequence_num);
        lemma_base(c.grid, unsaved);
        let below0 = base(c.grid, unsaved);
        lemma_apply_ops_wf(c.grid, rollback_ops(unsaved));
        lemma_same_ids(c.grid, below0);
        let t = incoming(id, operations);
        lemma_run_sheets(below0, t, sheet_id);
        lemma_run_wf(below0, t);
        let below1 = run(below0, t).0;
        let due = helper(drain(c.log.out_of_order_transactions, sequence_num).1);
        lemma_run_sheets(below1, due, sheet_id);
        lemma_run_wf(below1, due);
        let below = run(below1, due).0;
        let left = still_unsaved(unsaved, id, c.log.out_of_order_transactions, sequence_num);
        lemma_apply_ops_wf(below, forward_ops(left));
        lemma_same_ids(below, apply_ops(below, forward_ops(left)));
    }
}

/// The edit that stores in the cell at `sheet_pos` what it holds in `g`.
pub open spec fn restoring(g: GridView, sheet_pos: SheetPos) -> Operation {
    Operation::SetCellValue {
        sheet_pos,
        value: g[sheet_index(g, sheet_pos.sheet_id)->0].cell(sheet_pos.spec_pos()),
    }
}

/// A user's edit of one cell leaves on the undo stack the edit that
/// stores in the cell what it held before.
pub proof fn lemma_one_edit(
    c: ControllerView,
    id: u128,
    sheet_pos: SheetPos,
    value: CellValue,
    cursor: Option<String>,
)
    requires
        layered(c.grid, c.log.unsaved_transactions),
        sheet_index(c.grid, sheet_pos.sheet_id) is Some,
    ensures
        ({
            let c1 = local_transaction(
                c,
                id,
                TransactionType::User,
                seq![Operation::SetCellValue { sheet_pos, value }],
                cursor,
            ).0;
            &&& layered(c1.grid, c1.log.unsaved_transactions)
            &&& c1.undo_stack.len() > 0
            &&& c1.undo_stack.last().operations == seq![restoring(c.grid, sheet_pos)]
            &&& forall|x: SheetId| sheet_index(c1.grid, x) == sheet_index(c.grid, x)
            &&& c1.grid == apply_ops(c.grid, seq![Operation::SetCellValue { sheet_pos, value }])
            &&& c1.log.unsaved_transactions == c.log.unsaved_transactions.push(
                UnsavedView {
                    id,
                    forward: seq![Operation::SetCellValue { sheet_pos, value }],
                    reverse: seq![restoring(c.grid, sheet_pos)],
                },
            )
            &&& base(c1.grid, c1.log.unsaved_transactions) == base(
                c.grid,
                c.log.unsaved_transactions,
            )
            &&& c1.log.last_sequence_num == c.log.last_sequence_num
            &&& c1.log.out_of_order_transactions == c.log.out_of_order_transactions
        }),
{
    let i = sheet_index(c.grid, sheet_pos.sheet_id)->0;
    let op = Operation::SetCellValue { sheet_pos, value };
    let ops = seq![op];
    let t0 = PendingView::new(id, TransactionType::User, ops, cursor);
    assert(all_primitive(ops));
    lemma_run_primitive(c.grid, t0);
    assert(t0.operations.drop_first() =~= Seq::<Operation>::empty());
    let (g1, s1) = step(c.grid, t0);
    assert(run(c.grid, t0) == run(g1, s1)) by {
        lemma_step_decreases(c.grid, t0);
    }
    assert(run(g1, s1) == (g1, s1));
    assert(s1.reverse_operations =~= seq![restoring(c.grid, sheet_pos)]);
    assert(s1.forward_operations.len() == 1);
    local_work_is_layered(c, id, TransactionType::User, ops, cursor);
    let c1 = local_transaction(c, id, TransactionType::User, ops, cursor).0;
    assert(c1.grid == g1);
    lemma_apply_ops_wf(c.grid, ops);
    lemma_same_ids(c.grid, apply_ops(c.grid, ops));
    assert(s1.forward_operations =~= ops);
    let u = UnsavedView { id, forward: ops, reverse: seq![restoring(c.grid, sheet_pos)] };
    let unsaved = c.log.unsaved_transactions.push(u);
    assert(c1.log.unsaved_transactions == unsaved);
    assert(unsaved.drop_last() =~= c.log.unsaved_transactions);
    assert(apply_ops(c.grid, t0.forward_operations) == c.grid);
    assert(apply_ops(c.grid, t0.reverse_operations) == c.grid);
    lemma_run_consistent(c.grid, c.grid, t0);
    assert(apply_ops(g1, u.reverse) == c.grid);
    lemma_apply_ops_concat(g1, u.reverse, rollback_ops(c.log.unsaved_transactions));
}

/// Undoing the edit of one cell stores in it what the edit on the stack
/// holds, and leaves every other cell and the log's numbers alone.
pub proof fn lemma_undo_one(
    c: ControllerView,
    id: u128,
    cursor: Option<String>,
    sheet_pos: SheetPos,
    before: CellValue,
    other: SheetPos,
)
    requires
        grid_wf(c.grid),
        c.undo_stack.len() > 0,
        c.undo_stack.last().operations == seq![
            Operation::SetCellValue { sheet_pos, value: before },
        ],
        sheet_index(c.grid, sheet_pos.sheet_id) is Some,
        sheet_index(c.grid, other.sheet_id) is Some,
        other != sheet_pos,
    ensures
        ({
            let i = sheet_index(c.grid, sheet_pos.sheet_id)->0;
            let j = sheet_index(c.grid, other.sheet_id)->0;
            let c2 = undone(c, id, cursor).0;
            &&& sheet_index(c2.grid, sheet_pos.sheet_id) == Some(i)
            &&& c2.grid[i].cell(sheet_pos.spec_pos()) == before
            &&& sheet_index(c2.grid, other.sheet_id) == Some(j)
            &&& c2.grid[j].cell(other.spec_pos()) == c.grid[j].cell(other.spec_pos())
            &&& c2.log.last_sequence_num == c.log.last_sequence_num
            &&& c2.log.out_of_order_transactions == c.log.out_of_order_transactions
        }),
{
    let i = sheet_index(c.grid, sheet_pos.sheet_id)->0;
    let back = Operation::SetCellValue { sheet_pos, value: before };
    let ops = seq![back];
    assert(ops.last() == back);
    assert(ops.drop_last() =~= Seq::<Operation>::empty());
    assert(last_write(ops.drop_last(), other) is None);
    assert(last_write(ops, other) is None);
    assert(last_write(ops, sheet_pos) == Some(before));
    assert(all_primitive(ops));
    undo_leaves_other_cells(c, id, cursor, other);
    lemma_last_write(c.grid, ops, sheet_pos, i);
}

/// Undoing after an edit of another participant.
///
/// Let a user store a value in a cell, let then a transaction of the
/// sequencer be received, whatever its number and whatever it holds,
/// and let the user undo. Then the cell holds again what it held before
/// the user's edit, every other cell holds what it held when the
/// transaction had been received, and the log's last number and its
/// waiting transactions are what they were then.
pub proof fn undo_after_remote_edit(
    c: ControllerView,
    id: u128,
    sheet_pos: SheetPos,
    value: CellValue,
    cursor: Option<String>,
    remote_id: u128,
    remote: Seq<Operation>,
    sequence_num: u64,
    undo_id: u128,
    other: SheetPos,
)
    requires
        layered(c.grid, c.log.unsaved_transactions),
        sheet_index(c.grid, sheet_pos.sheet_id) is Some,
        sheet_index(c.grid, other.sheet_id) is Some,
        other != sheet_pos,
    ensures
        ({
            let i = sheet_index(c.grid, sheet_pos.sheet_id)->0;
            let j = sheet_index(c.grid, other.sheet_id)->0;
            let c1 = local_transaction(
                c,
                id,
                TransactionType::User,
                seq![Operation::SetCellValue { sheet_pos, value }],
                cursor,
            ).0;
            let (r, t) = client_applied(c1, incoming(remote_id, remote), sequence_num);
            let c2 = finalized(r, t);
            let c3 = undone(c2, undo_id, cursor).0;
            &&& sheet_index(c3.grid, sheet_pos.sheet_id) == Some(i)
            &&& c3.grid[i].cell(sheet_pos.spec_pos()) == c.grid[i].cell(sheet_pos.spec_pos())
            &&& sheet_index(c2.grid, other.sheet_id) == Some(j)
            &&& sheet_index(c3.grid, other.sheet_id) == Some(j)
            &&& c3.grid[j].cell(other.spec_pos()) == c2.grid[j].cell(other.spec_pos())
            &&& c3.log.last_sequence_num == c2.log.last_sequence_num
            &&& c3.log.out_of_order_transactions == c2.log.out_of_order_transactions
        }),
{
    let i = sheet_index(c.grid, sheet_pos.sheet_id)->0;
    lemma_one_edit(c, id, sheet_pos, value, cursor);
    let c1 = local_transaction(
        c,
        id,
        TransactionType::User,
        seq![Operation::SetCellValue { sheet_pos, value }],
        cursor,
    ).0;
    assert(sheet_index(c1.grid, sheet_pos.sheet_id) == sheet_index(c.grid, sheet_pos.sheet_id));
    assert(sheet_index(c1.grid, other.sheet_id) == sheet_index(c.grid, other.sheet_id));
    receipt_keeps_layers(c1, remote_id, remote, sequence_num);
    receipt_leaves_stacks(c1, remote_id, remote, sequence_num);
    receipt_keeps_sheets(c1, remote_id, remote, sequence_num, sheet_pos.sheet_id);
    receipt_keeps_sheets(c1, remote_id, remote, sequence_num, other.sheet_id);
    let (r, t) = client_applied(c1, incoming(remote_id, remote), sequence_num);
    let c2 = finalized(r, t);
    lemma_undo_one(
        c2,
        undo_id,
        cursor,
        sheet_pos,
        c.grid[i].cell(sheet_pos.spec_pos()),
        other,
    );
}

} // verus!
