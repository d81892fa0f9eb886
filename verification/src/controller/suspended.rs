//! What holds of transactions that wait for a result.

use crate::controller::calculation::{completed, resume_ops};
use crate::controller::execution::model::{
    flip_op, lemma_run_primitive, lemma_step_decreases, lemma_swept_keeps, performed, run,
    runs_len, step, swept,
};
use crate::controller::execution::reconcile::{
    client_applied, drain, forward_ops, helper, incoming, rollback_ops, without_ids, without_own,
};
use crate::controller::execution::{finalized, started};
use crate::controller::grid_controller::ControllerView;
use crate::controller::guarantees::{
    last_write, lemma_last_write, next_transaction_goes_underneath, still_unsaved,
};
use crate::controller::layers::base;
use crate::controller::operation::{
    all_primitive, applies, apply_op, apply_ops, lemma_apply_op_wf, Operation,
};
use crate::controller::pending_transaction::PendingView;
use crate::controller::transactions::async_index;
use crate::grid::{grid_wf, is_first_sheet, sheet_index, GridView};
use crate::pos_map::{
    lemma_put, lemma_put_replace, lemma_rank_at, lemma_rank_splits, lookup, rank,
};
use crate::position::{Rect, SheetId, SheetPos};
use crate::values::{CellValue, CodeRun};
use vstd::prelude::*;

verus! {

/// Whether the grids `g` and `h` hold the same, but for which code runs
/// have a spill error.
pub open spec fn same_but_spills(g: GridView, h: GridView) -> bool {
    &&& g.len() == h.len()
    &&& forall|s: int|
        0 <= s < g.len() ==> {
            &&& (#[trigger] h[s]).id == g[s].id
            &&& h[s].cells == g[s].cells
            &&& h[s].output_sizes == g[s].output_sizes
            &&& h[s].code_runs.len() == g[s].code_runs.len()
            &&& forall|k: int|
                0 <= k < g[s].code_runs.len() ==> (#[trigger] h[s].code_runs[k]).0
                    == g[s].code_runs[k].0 && h[s].code_runs[k].1.result
                    == g[s].code_runs[k].1.result
        }
}

/// A check for spills changes nothing but spill errors.
pub proof fn lemma_swept_values(
    g: GridView,
    t: PendingView,
    sheet_id: SheetId,
    i: int,
    n: int,
    rect: Option<Rect>,
)
    requires
        grid_wf(g),
    ensures
        same_but_spills(g, swept(g, t, sheet_id, i, n, rect).0),
        grid_wf(swept(g, t, sheet_id, i, n, rect).0),
    decreases n - i,
{
    match sheet_index(g, sheet_id) {
        None => {},
        Some(si) => {
            if !(i < 0 || i >= n || i >= g[si].code_runs.len()) {
                let (pos, run) = g[si].code_runs[i];
                let blocked = g[si].blocked(i);
                let in_scope = match rect {
                    Some(r) => run.spec_output_rect(pos, true).spec_intersects(r),
                    None => true,
                };
                if in_scope && blocked != run.spill_error {
                    let op = flip_op(g[si], i, blocked);
                    let (g2, t2) = performed(g, t, op);
                    assert(is_first_sheet(g, sheet_id, si));
                    assert(applies(g, op));
                    lemma_apply_op_wf(g, op);
                    lemma_rank_at(g[si].code_runs, i);
                    lemma_put_replace(
                        g[si].code_runs,
                        pos,
                        CodeRun { spill_error: blocked, ..run },
                    );
                    assert(same_but_spills(g, g2));
                    lemma_swept_values(g2, t2, sheet_id, i + 1, n, None);
                    let g3 = swept(g2, t2, sheet_id, i + 1, n, None).0;
                    assert(same_but_spills(g, g3)) by {
                        assert forall|s: int| 0 <= s < g.len() implies {
                            &&& (#[trigger] g3[s]).id == g[s].id
                            &&& g3[s].cells == g[s].cells
                            &&& g3[s].output_sizes == g[s].output_sizes
                            &&& g3[s].code_runs.len() == g[s].code_runs.len()
                            &&& forall|k: int|
                                0 <= k < g[s].code_runs.len() ==> (
                                #[trigger] g3[s].code_runs[k]).0 == g[s].code_runs[k].0
                                    && g3[s].code_runs[k].1.result == g[s].code_runs[k].1.result
                        } by {
                            assert(g2[s].id == g[s].id);
                            assert forall|k: int| 0 <= k < g[s].code_runs.len() implies (
                            #[trigger] g3[s].code_runs[k]).0 == g[s].code_runs[k].0
                                && g3[s].code_runs[k].1.result == g[s].code_runs[k].1.result by {
                                assert(g2[s].code_runs[k].0 == g[s].code_runs[k].0);
                            }
                        }
                    }
                } else {
                    lemma_swept_values(g, t, sheet_id, i + 1, n, rect);
                }
            }
        },
    }
}

/// A transaction of the sequencer does not wait for suspended work.
///
/// Let a participant have no unsaved work and nothing waiting, but any
/// number of suspended transactions. When the transaction with the next
/// number is received, it takes effect at once: a cell to which its
/// edits, all primitive, store a value shows what the last of them
/// stored there. The suspended transactions stay as they are.
pub proof fn remote_edit_is_not_deferred(
    c: ControllerView,
    id: u128,
    operations: Seq<Operation>,
    sequence_num: u64,
    sheet_pos: SheetPos,
)
    requires
        grid_wf(c.grid),
        c.log.unsaved_transactions.len() == 0,
        c.log.out_of_order_transactions.len() == 0,
        sequence_num == c.log.last_sequence_num + 1,
        all_primitive(operations),
        sheet_index(c.grid, sheet_pos.sheet_id) is Some,
        last_write(operations, sheet_pos) is Some,
    ensures
        ({
            let c2 = client_applied(c, incoming(id, operations), sequence_num).0;
            let i = sheet_index(c.grid, sheet_pos.sheet_id)->0;
            let remote = last_write(operations, sheet_pos)->0;
            &&& c2.log.async_transactions == c.log.async_transactions
            &&& sheet_index(c2.grid, sheet_pos.sheet_id) == Some(i)
            &&& c2.grid[i].cell(sheet_pos.spec_pos()) == remote
            &&& !(remote is Blank) && !(remote is Code) ==> c2.grid[i].display(
                sheet_pos.spec_pos(),
            ) == Some(remote)
            &&& c2.grid == apply_ops(c.grid, operations)
        }),
{
    let i = sheet_index(c.grid, sheet_pos.sheet_id)->0;
    next_transaction_goes_underneath(c, id, operations, sequence_num);
    let none = c.log.unsaved_transactions;
    assert(rollback_ops(none) =~= Seq::<
        Operation,
    >::empty());
    assert(base(c.grid, none) == c.grid);
    let t = incoming(id, operations);
    lemma_run_primitive(c.grid, t);
    let d = drain(
        c.log.out_of_order_transactions,
        sequence_num,
    );
    assert(d.1 =~= Seq::<Operation>::empty());
    let g1 = apply_ops(c.grid, operations);
    assert(run(g1, helper(d.1)).0 == g1);
    let left = still_unsaved(
        none,
        id,
        c.log.out_of_order_transactions,
        sequence_num,
    );
    assert(left.len() == 0) by {
        assert(without_own(none, id) == none);
        assert(without_ids(none, d.3) == none);
    }
    assert(forward_ops(left) =~= Seq::<
        Operation,
    >::empty());
    lemma_last_write(c.grid, operations, sheet_pos, i);
    let c2 = client_applied(c, incoming(id, operations), sequence_num).0;
    let remote = c2.grid[i].cell(sheet_pos.spec_pos());
    if !(remote is Blank) && !(remote is Code) {
        c2.grid[i].lemma_shows(sheet_pos.spec_pos());
    }
}

/// The result of suspended work wins.
///
/// Let a suspended transaction wait for the result of the code cell at
/// `sheet_pos`, with nothing left to do afterwards. When the result
/// comes in, the cell is that code cell again, whatever has been stored
/// in it meanwhile, and its run holds the result that came in.
#[verifier::rlimit(60)]
pub proof fn async_result_wins(c: ControllerView, id: u128, result: CodeRun)
    requires
        grid_wf(c.grid),
        async_index(c.log.async_transactions, id) is Some,
        c.log.async_transactions[async_index(
            c.log.async_transactions,
            id,
        )->0].waiting_for_async is Some,
        c.log.async_transactions[async_index(c.log.async_transactions, id)->0].operations.len()
            == 0,
        sheet_index(
            c.grid,
            c.log.async_transactions[async_index(
                c.log.async_transactions,
                id,
            )->0].waiting_for_async->0.sheet_pos.sheet_id,
        ) is Some,
    ensures
        ({
            let t = c.log.async_transactions[async_index(c.log.async_transactions, id)->0];
            let request = t.waiting_for_async->0;
            let i = sheet_index(c.grid, request.sheet_pos.sheet_id)->0;
            let pos = request.sheet_pos.spec_pos();
            &&& completed(c, id, result) is Ok
            &&& completed(c, id, result)->Ok_0.0.grid.len() == c.grid.len()
            &&& completed(c, id, result)->Ok_0.0.grid[i].cell(pos) == CellValue::Code(
                request.code_cell,
            )
            &&& lookup(completed(c, id, result)->Ok_0.0.grid[i].code_runs, pos) is Some
            &&& lookup(completed(c, id, result)->Ok_0.0.grid[i].code_runs, pos)->0.result
                == result.result
        }),
{
    let t = c.log.async_transactions[async_index(c.log.async_transactions, id)->0];
    let request = t.waiting_for_async->0;
    let sheet_pos = request.sheet_pos;
    let i = sheet_index(c.grid, sheet_pos.sheet_id)->0;
    let pos = sheet_pos.spec_pos();
    let ops = resume_ops(request, result);
    assert(ops + t.operations =~= ops);
    let t0 = PendingView { waiting_for_async: None, operations: ops + t.operations, ..t };
    let g0 = c.grid;
    // the code cell is stored again
    let op1 = ops[0];
    assert(is_first_sheet(g0, sheet_pos.sheet_id, i));
    assert(applies(g0, op1));
    let (g1, t1) = step(g0, t0);
    lemma_apply_op_wf(g0, op1);
    g0[i].lemma_with_cell(pos, CellValue::Code(request.code_cell));
    assert(g1 == apply_op(g0, op1));
    assert(g1[i].cell(pos) == CellValue::Code(request.code_cell));
    assert(t1.operations =~= seq![ops[1], ops[2], ops[3]]);
    // its run is stored
    let op2 = ops[1];
    assert(is_first_sheet(g1, sheet_pos.sheet_id, i));
    assert(applies(g1, op2));
    let (g2, t2) = step(g1, t1);
    lemma_apply_op_wf(g1, op2);
    lemma_put(g1[i].code_runs, pos, Some(result));
    assert(g2 == apply_op(g1, op2));
    assert(g2[i].cells == g1[i].cells);
    assert(lookup(g2[i].code_runs, pos) == Some(result));
    assert(t2.operations =~= seq![ops[2], ops[3]]);
    // spills are checked, first where the cell is
    let (g3, t3) = step(g2, t2);
    let rest2 = PendingView { operations: t2.operations.drop_first(), ..t2 };
    let here = Some(Rect { min: pos, max: pos });
    lemma_swept_values(g2, rest2, sheet_pos.sheet_id, 0, runs_len(g2, sheet_pos.sheet_id), here);
    lemma_swept_keeps(g2, rest2, sheet_pos.sheet_id, 0, runs_len(g2, sheet_pos.sheet_id), here);
    assert(t3.operations =~= seq![ops[3]]);
    assert(same_but_spills(g2, g3));
    // then everywhere
    let (g4, t4) = step(g3, t3);
    let rest3 = PendingView { operations: t3.operations.drop_first(), ..t3 };
    lemma_swept_values(g3, rest3, sheet_pos.sheet_id, 0, runs_len(g3, sheet_pos.sheet_id), None);
    lemma_swept_keeps(g3, rest3, sheet_pos.sheet_id, 0, runs_len(g3, sheet_pos.sheet_id), None);
    assert(t4.operations =~= Seq::<Operation>::empty());
    assert(same_but_spills(g3, g4));
    lemma_rank_splits(g2[i].code_runs, pos);
    let r = rank(g2[i].code_runs, pos);
    assert(g3[i].code_runs[r].0 == g2[i].code_runs[r].0);
    assert(g4[i].code_runs[r].0 == g3[i].code_runs[r].0);
    assert(g4[i].code_runs[r].1.result == g3[i].code_runs[r].1.result);
    assert(g4[i].cells == g3[i].cells);
    lemma_rank_at(g4[i].code_runs, r);
    // and that is the end of it
    assert(run(g4, t4) == (g4, t4));
    assert(run(g3, t3) == run(g4, t4)) by {
        lemma_step_decreases(g3, t3);
    }
    assert(run(g2, t2) == run(g3, t3)) by {
        lemma_step_decreases(g2, t2);
    }
    assert(run(g1, t1) == run(g2, t2)) by {
        lemma_step_decreases(g1, t1);
    }
    assert(run(g0, t0) == run(g1, t1)) by {
        lemma_step_decreases(g0, t0);
    }
    let (c1, tf) = started(c, t0);
    assert(c1.grid == g4);
    assert(finalized(c1, tf).grid == g4);
}

} // verus!
