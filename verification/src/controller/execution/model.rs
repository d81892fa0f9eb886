//! What carrying out a transaction means: one step takes the next edit
//! from the queue; a run takes steps until the queue is empty or the
//! transaction has to wait.

use crate::controller::operation::{
    all_primitive, applies, apply_op, apply_ops, lemma_apply_op_wf, lemma_apply_ops_concat,
    lemma_undo_op, reverse_of, reverse_ops, Operation,
};
use crate::controller::pending_transaction::{AsyncRequest, PendingView};
use crate::formulas::run::formula_run;
use crate::grid::sheet::SheetView;
use crate::grid::{grid_wf, sheet_index, GridView};
use crate::position::{Pos, Rect, SheetId, SheetPos, SheetRect};
use crate::values::{CellValue, CodeCellValue, CodeRun};
use vstd::prelude::*;

verus! {

impl Operation {
    /// Whether carrying out the request puts new edits into the queue.
    pub open spec fn expands(&self) -> bool {
        *self is MoveCells || *self is ComputeCode
    }
}

/// The number of edits in `q` that put new edits into the queue.
pub open spec fn expanding(q: Seq<Operation>) -> nat
    decreases q.len(),
{
    if q.len() == 0 {
        0
    } else {
        expanding(q.drop_last()) + if q.last().expands() {
            1nat
        } else {
            0nat
        }
    }
}

/// The count over a queue in two parts is the sum of the counts.
pub proof fn lemma_expanding_concat(a: Seq<Operation>, b: Seq<Operation>)
    ensures
        expanding(a + b) == expanding(a) + expanding(b),
    decreases b.len(),
{
    if b.len() == 0 {
        assert(a + b =~= a);
    } else {
        assert((a + b).drop_last() =~= a + b.drop_last());
        assert((a + b).last() == b.last());
        lemma_expanding_concat(a, b.drop_last());
    }
}

/// Primitive edits put nothing into the queue.
pub proof fn lemma_expanding_primitive(q: Seq<Operation>)
    requires
        all_primitive(q),
    ensures
        expanding(q) == 0,
    decreases q.len(),
{
    if q.len() > 0 {
        assert(q.last().is_primitive());
        assert forall|i: int| 0 <= i < q.drop_last().len() implies (
        #[trigger] q.drop_last()[i]).is_primitive() by {
            assert(q.drop_last()[i] == q[i]);
        }
        lemma_expanding_primitive(q.drop_last());
    }
}

/// The count over a queue is that of its first edit and of the rest.
pub proof fn lemma_expanding_drop_first(q: Seq<Operation>)
    requires
        q.len() > 0,
    ensures
        expanding(q) == expanding(q.drop_first()) + if q[0].expands() {
            1nat
        } else {
            0nat
        },
{
    assert(q =~= seq![q[0]] + q.drop_first());
    lemma_expanding_concat(seq![q[0]], q.drop_first());
    assert(seq![q[0]].drop_last() =~= Seq::<Operation>::empty());
    assert(expanding(seq![q[0]].drop_last()) == 0);
}

/// Whether a move of `source` to `dest` takes the cell at `pos` along: the
/// cell lies in `source`, and the place it would land on exists.
pub open spec fn movable(pos: Pos, source: SheetRect, dest: SheetPos) -> bool {
    &&& source.spec_rect().spec_contains(pos)
    &&& i64::MIN <= dest.x + (pos.x - source.min.x) <= i64::MAX
    &&& i64::MIN <= dest.y + (pos.y - source.min.y) <= i64::MAX
}

/// Where the cell at `pos` lands when `source` is moved to `dest`.
pub open spec fn move_target(pos: Pos, source: SheetRect, dest: SheetPos) -> SheetPos {
    SheetPos {
        x: (dest.x + (pos.x - source.min.x)) as i64,
        y: (dest.y + (pos.y - source.min.y)) as i64,
        sheet_id: dest.sheet_id,
    }
}

/// The edits that empty the cells which a move takes along, in sheet order.
pub open spec fn cut_ops(cells: Seq<(Pos, CellValue)>, source: SheetRect, dest: SheetPos) -> Seq<
    Operation,
>
    decreases cells.len(),
{
    if cells.len() == 0 {
        Seq::empty()
    } else {
        let before = cut_ops(cells.drop_last(), source, dest);
        let pos = cells.last().0;
        if movable(pos, source, dest) {
            before.push(
                Operation::SetCellValue {
                    sheet_pos: SheetPos { x: pos.x, y: pos.y, sheet_id: source.sheet_id },
                    value: CellValue::Blank,
                },
            )
        } else {
            before
        }
    }
}

/// The edits that store the moved values where they land, in sheet order
/// of the cells they come from.
pub open spec fn paste_ops(cells: Seq<(Pos, CellValue)>, source: SheetRect, dest: SheetPos) -> Seq<
    Operation,
>
    decreases cells.len(),
{
    if cells.len() == 0 {
        Seq::empty()
    } else {
        let before = paste_ops(cells.drop_last(), source, dest);
        let pos = cells.last().0;
        if movable(pos, source, dest) {
            before.push(
                Operation::SetCellValue {
                    sheet_pos: move_target(pos, source, dest),
                    value: cells.last().1,
                },
            )
        } else {
            before
        }
    }
}

/// A move stands for primitive edits.
pub proof fn lemma_move_ops_primitive(
    cells: Seq<(Pos, CellValue)>,
    source: SheetRect,
    dest: SheetPos,
)
    ensures
        all_primitive(cut_ops(cells, source, dest)),
        all_primitive(paste_ops(cells, source, dest)),
    decreases cells.len(),
{
    if cells.len() > 0 {
        lemma_move_ops_primitive(cells.drop_last(), source, dest);
    }
}

/// The edits that a move of `source` to `dest` stands for on the grid `g`:
/// first the cells are emptied, then their values are stored where they
/// land. `None` where the sheet of `source` is missing.
pub open spec fn move_expansion(g: GridView, source: SheetRect, dest: SheetPos) -> Option<
    Seq<Operation>,
> {
    match sheet_index(g, source.sheet_id) {
        Some(i) => Some(cut_ops(g[i].cells, source, dest) + paste_ops(g[i].cells, source, dest)),
        None => None,
    }
}

/// The transaction `t` with the edit `op` recorded as carried out on `g`.
pub open spec fn recorded(g: GridView, t: PendingView, op: Operation) -> PendingView {
    PendingView {
        forward_operations: t.forward_operations.push(op),
        reverse_operations: reverse_of(g, op) + t.reverse_operations,
        summary: t.summary.after(op),
        sheets_with_dirty_bounds: t.sheets_with_dirty_bounds.insert(op.spec_sheet_id()),
        ..t
    }
}

/// The transaction `t` with a note that an edit was skipped.
pub open spec fn with_skip(t: PendingView) -> PendingView {
    PendingView { summary: t.summary.skipped(), ..t }
}

/// The grid and the transaction after the primitive edit `op` was
/// carried out and recorded, or skipped where its sheet is missing.
pub open spec fn performed(g: GridView, t: PendingView, op: Operation) -> (GridView, PendingView) {
    if applies(g, op) {
        (apply_op(g, op), recorded(g, t, op))
    } else {
        (g, with_skip(t))
    }
}

/// The edit that gives the code run at `i` of the sheet `s` the spill
/// error `flag`.
pub open spec fn flip_op(s: SheetView, i: int, flag: bool) -> Operation {
    Operation::SetCodeRun {
        sheet_pos: SheetPos { x: s.code_runs[i].0.x, y: s.code_runs[i].0.y, sheet_id: s.id },
        code_run: Some(CodeRun { spill_error: flag, ..s.code_runs[i].1 }),
    }
}

/// The grid and the transaction after the code runs at the places `i` to
/// `n` of the sheet `sheet_id` were looked at in turn. A run whose spill
/// error does not say whether its output is blocked is changed, by an
/// edit that is recorded like any other; a later run is then judged by
/// the grid as changed. With `rect`, runs whose output does not touch
/// `rect` are passed over until the first run was changed.
pub open spec fn swept(
    g: GridView,
    t: PendingView,
    sheet_id: SheetId,
    i: int,
    n: int,
    rect: Option<Rect>,
) -> (GridView, PendingView)
    decreases n - i,
{
    match sheet_index(g, sheet_id) {
        None => (g, t),
        Some(si) => if i < 0 || i >= n || i >= g[si].code_runs.len() {
            (g, t)
        } else {
            let (pos, run) = g[si].code_runs[i];
            let blocked = g[si].blocked(i);
            let in_scope = match rect {
                Some(r) => run.spec_output_rect(pos, true).spec_intersects(r),
                None => true,
            };
            if in_scope && blocked != run.spill_error {
                let (g2, t2) = performed(g, t, flip_op(g[si], i, blocked));
                swept(g2, t2, sheet_id, i + 1, n, None)
            } else {
                swept(g, t, sheet_id, i + 1, n, rect)
            }
        },
    }
}

/// The source of the code cell at `sheet_pos`, if a code cell is there.
pub open spec fn code_cell_at(g: GridView, sheet_pos: SheetPos) -> Option<CodeCellValue> {
    match sheet_index(g, sheet_pos.sheet_id) {
        Some(i) => match g[i].cell(sheet_pos.spec_pos()) {
            CellValue::Code(code_cell) => Some(code_cell),
            _ => None,
        },
        None => None,
    }
}

/// The edits that store `run` as the run of the code cell at `sheet_pos`.
/// The code cells that reach the cell are checked for spills before the
/// others, so that the new run gives way to the output of an older one.
pub open spec fn store_run_ops(sheet_pos: SheetPos, run: CodeRun) -> Seq<Operation> {
    seq![
        Operation::SetCodeRun { sheet_pos, code_run: Some(run) },
        Operation::CheckSpills {
            sheet_rect: SheetRect {
                min: sheet_pos.spec_pos(),
                max: sheet_pos.spec_pos(),
                sheet_id: sheet_pos.sheet_id,
            },
        },
        Operation::CheckAllSpills { sheet_id: sheet_pos.sheet_id },
    ]
}

/// The number of code runs on the sheet that `sheet_id` names.
pub open spec fn runs_len(g: GridView, sheet_id: SheetId) -> int {
    match sheet_index(g, sheet_id) {
        Some(i) => g[i].code_runs.len() as int,
        None => 0,
    }
}

/// One step: the first edit of the queue is taken out and carried out.
///
/// A primitive edit changes the grid and is recorded together with the
/// edit that undoes it; where its sheet is missing it is skipped, which
/// the summary notes. A move puts the edits it stands for at the front of
/// the queue. A request to run a code cell does the same for a formula,
/// with the edits that store its value; for another language it suspends
/// a transaction made here, and is skipped in any other. A check for
/// spills changes the runs whose output can no longer, or can again, be
/// laid out.
pub open spec fn step(g: GridView, t: PendingView) -> (GridView, PendingView)
    recommends
        t.operations.len() > 0,
{
    let op = t.operations[0];
    let rest = PendingView { operations: t.operations.drop_first(), ..t };
    match op {
        Operation::MoveCells { source, dest } => match move_expansion(g, source, dest) {
            Some(ops) => (g, PendingView { operations: ops + rest.operations, ..rest }),
            None => (g, with_skip(rest)),
        },
        Operation::ComputeCode { sheet_pos } => match code_cell_at(g, sheet_pos) {
            Some(code_cell) => if code_cell.language.spec_is_async() {
                if t.transaction_type.spec_is_local() {
                    (
                        g,
                        PendingView {
                            waiting_for_async: Some(AsyncRequest { sheet_pos, code_cell }),
                            has_async: true,
                            ..rest
                        },
                    )
                } else {
                    (g, with_skip(rest))
                }
            } else {
                (
                    g,
                    PendingView {
                        operations: store_run_ops(
                            sheet_pos,
                            formula_run(
                                g[sheet_index(g, sheet_pos.sheet_id)->0],
                                sheet_pos.spec_pos(),
                                code_cell.code@,
                            ),
                        ) + rest.operations,
                        ..rest
                    },
                )
            },
            None => (g, with_skip(rest)),
        },
        Operation::CheckSpills { sheet_rect } => swept(
            g,
            rest,
            sheet_rect.sheet_id,
            0,
            runs_len(g, sheet_rect.sheet_id),
            Some(sheet_rect.spec_rect()),
        ),
        Operation::CheckAllSpills { sheet_id } => swept(
            g,
            rest,
            sheet_id,
            0,
            runs_len(g, sheet_id),
            None,
        ),
        _ => performed(g, rest, op),
    }
}

/// A run: steps are taken until no edit is left or the transaction waits
/// for the result of a computation.
pub open spec fn run(g: GridView, t: PendingView) -> (GridView, PendingView)
    decreases expanding(t.operations), t.operations.len(),
    via run_decreases
{
    if t.operations.len() == 0 || t.waiting_for_async is Some {
        (g, t)
    } else {
        let (g2, t2) = step(g, t);
        run(g2, t2)
    }
}

#[via_fn]
proof fn run_decreases(g: GridView, t: PendingView) {
    if !(t.operations.len() == 0 || t.waiting_for_async is Some) {
        lemma_step_decreases(g, t);
    }
}

/// A step brings the run nearer its end: there are fewer requests that
/// refill the queue, or as many and a shorter queue.
pub proof fn lemma_step_decreases(g: GridView, t: PendingView)
    requires
        t.operations.len() > 0,
    ensures
        expanding(step(g, t).1.operations) < expanding(t.operations) || (expanding(
            step(g, t).1.operations,
        ) == expanding(t.operations) && step(g, t).1.operations.len() < t.operations.len()),
{
    let op = t.operations[0];
    lemma_expanding_drop_first(t.operations);
    match op {
        Operation::MoveCells { source, dest } => {
            match sheet_index(g, source.sheet_id) {
                Some(i) => {
                    let cut = cut_ops(g[i].cells, source, dest);
                    let paste = paste_ops(g[i].cells, source, dest);
                    lemma_move_ops_primitive(g[i].cells, source, dest);
                    lemma_expanding_primitive(cut);
                    lemma_expanding_primitive(paste);
                    lemma_expanding_concat(cut, paste);
                    lemma_expanding_concat(cut + paste, t.operations.drop_first());
                },
                None => {},
            }
        },
        Operation::ComputeCode { sheet_pos } => {
            match code_cell_at(g, sheet_pos) {
                Some(code_cell) => {
                    if !code_cell.language.spec_is_async() {
                        let ops = store_run_ops(
                            sheet_pos,
                            formula_run(
                                g[sheet_index(g, sheet_pos.sheet_id)->0],
                                sheet_pos.spec_pos(),
                                code_cell.code@,
                            ),
                        );
                        lemma_expanding_concat(ops, t.operations.drop_first());
                        assert(ops.drop_last().drop_last().drop_last() =~= Seq::<
                            Operation,
                        >::empty());
                        assert(expanding(ops) == 0) by {
                            assert(expanding(ops.drop_last().drop_last().drop_last()) == 0);
                            assert(expanding(ops.drop_last().drop_last()) == 0);
                            assert(expanding(ops.drop_last()) == 0);
                        }
                    }
                },
                None => {},
            }
        },
        Operation::CheckSpills { sheet_rect } => {
            lemma_swept_keeps(
                g,
                PendingView { operations: t.operations.drop_first(), ..t },
                sheet_rect.sheet_id,
                0,
                runs_len(g, sheet_rect.sheet_id),
                Some(sheet_rect.spec_rect()),
            );
        },
        Operation::CheckAllSpills { sheet_id } => {
            lemma_swept_keeps(
                g,
                PendingView { operations: t.operations.drop_first(), ..t },
                sheet_id,
                0,
                runs_len(g, sheet_id),
                None,
            );
        },
        _ => {},
    }
}

/// A check for spills leaves alone what a run leaves alone, and the queue.
pub proof fn lemma_swept_keeps(
    g: GridView,
    t: PendingView,
    sheet_id: SheetId,
    i: int,
    n: int,
    rect: Option<Rect>,
)
    ensures
        swept(g, t, sheet_id, i, n, rect).1.operations == t.operations,
        swept(g, t, sheet_id, i, n, rect).1.id == t.id,
        swept(g, t, sheet_id, i, n, rect).1.transaction_type == t.transaction_type,
        swept(g, t, sheet_id, i, n, rect).1.sequence_num == t.sequence_num,
        swept(g, t, sheet_id, i, n, rect).1.cursor == t.cursor,
        swept(g, t, sheet_id, i, n, rect).1.complete == t.complete,
        swept(g, t, sheet_id, i, n, rect).1.has_async == t.has_async,
        swept(g, t, sheet_id, i, n, rect).1.waiting_for_async == t.waiting_for_async,
        swept(g, t, sheet_id, i, n, rect).0.len() == g.len(),
    decreases n - i,
{
    match sheet_index(g, sheet_id) {
        None => {},
        Some(si) => {
            if !(i < 0 || i >= n || i >= g[si].code_runs.len()) {
                let (pos, run) = g[si].code_runs[i];
                let blocked = g[si].blocked(i);
                let in_scope = match rect {
                    Some(r) => run.spec_output_rect(pos, true).spec_intersects(r),
                    None => true,
                };
                if in_scope && blocked != run.spill_error {
                    let (g2, t2) = performed(g, t, flip_op(g[si], i, blocked));
                    lemma_swept_keeps(g2, t2, sheet_id, i + 1, n, None);
                } else {
                    lemma_swept_keeps(g, t, sheet_id, i + 1, n, rect);
                }
            }
        },
    }
}

/// A check for spills keeps the record of a transaction true to the grid.
pub proof fn lemma_swept_consistent(
    start: GridView,
    g: GridView,
    t: PendingView,
    sheet_id: SheetId,
    i: int,
    n: int,
    rect: Option<Rect>,
)
    requires
        consistent(start, g, t),
    ensures
        consistent(
            start,
            swept(g, t, sheet_id, i, n, rect).0,
            swept(g, t, sheet_id, i, n, rect).1,
        ),
    decreases n - i,
{
    match sheet_index(g, sheet_id) {
        None => {},
        Some(si) => {
            if !(i < 0 || i >= n || i >= g[si].code_runs.len()) {
                let (pos, run) = g[si].code_runs[i];
                let blocked = g[si].blocked(i);
                let in_scope = match rect {
                    Some(r) => run.spec_output_rect(pos, true).spec_intersects(r),
                    None => true,
                };
                if in_scope && blocked != run.spill_error {
                    let op = flip_op(g[si], i, blocked);
                    let (g2, t2) = performed(g, t, op);
                    lemma_performed_consistent(start, g, t, op);
                    lemma_swept_consistent(start, g2, t2, sheet_id, i + 1, n, None);
                } else {
                    lemma_swept_consistent(start, g, t, sheet_id, i + 1, n, rect);
                }
            }
        },
    }
}

/// Carrying out a primitive edit keeps the record true to the grid.
pub proof fn lemma_performed_consistent(start: GridView, g: GridView, t: PendingView, op: Operation)
    requires
        consistent(start, g, t),
        op.is_primitive(),
    ensures
        consistent(start, performed(g, t, op).0, performed(g, t, op).1),
{
    if applies(g, op) {
        let g2 = apply_op(g, op);
        lemma_apply_op_wf(g, op);
        lemma_undo_op(g, op);
        lemma_apply_ops_concat(start, t.forward_operations, seq![op]);
        assert(seq![op].drop_first() =~= Seq::<Operation>::empty());
        assert(apply_ops(g, seq![op]) == apply_op(g, op)) by {
            assert(apply_ops(apply_op(g, seq![op][0]), seq![op].drop_first()) == apply_op(g, op));
        }
        assert(t.forward_operations.push(op) =~= t.forward_operations + seq![op]);
        lemma_apply_ops_concat(g2, reverse_of(g, op), t.reverse_operations);
    }
}

/// What holds between a grid and a transaction in progress on it:
/// carrying out the recorded edits on the grid `start` gives `g`, and the
/// recorded undoing edits lead from `g` back to `start`.
pub open spec fn consistent(start: GridView, g: GridView, t: PendingView) -> bool {
    &&& grid_wf(start)
    &&& grid_wf(g)
    &&& all_primitive(t.forward_operations)
    &&& all_primitive(t.reverse_operations)
    &&& g == apply_ops(start, t.forward_operations)
    &&& start == apply_ops(g, t.reverse_operations)
}

/// A step keeps the record of a transaction true to the grid.
pub proof fn lemma_step_consistent(start: GridView, g: GridView, t: PendingView)
    requires
        consistent(start, g, t),
        t.operations.len() > 0,
    ensures
        consistent(start, step(g, t).0, step(g, t).1),
{
    let op = t.operations[0];
    let rest = PendingView { operations: t.operations.drop_first(), ..t };
    match op {
        Operation::CheckSpills { sheet_rect } => {
            lemma_swept_consistent(
                start,
                g,
                rest,
                sheet_rect.sheet_id,
                0,
                runs_len(g, sheet_rect.sheet_id),
                Some(sheet_rect.spec_rect()),
            );
        },
        Operation::CheckAllSpills { sheet_id } => {
            lemma_swept_consistent(start, g, rest, sheet_id, 0, runs_len(g, sheet_id), None);
        },
        Operation::MoveCells { .. } => {},
        Operation::ComputeCode { .. } => {},
        _ => {
            lemma_performed_consistent(start, g, rest, op);
        },
    }
}

/// A run keeps the grid in order, records only primitive edits, and what
/// it records leads from the grid before to the grid after and back.
pub proof fn lemma_run_consistent(start: GridView, g: GridView, t: PendingView)
    requires
        consistent(start, g, t),
    ensures
        consistent(start, run(g, t).0, run(g, t).1),
    decreases expanding(t.operations), t.operations.len(),
{
    if !(t.operations.len() == 0 || t.waiting_for_async is Some) {
        lemma_step_decreases(g, t);
        lemma_step_consistent(start, g, t);
        let (g2, t2) = step(g, t);
        lemma_run_consistent(start, g2, t2);
    }
}

/// A run leaves alone what identifies the transaction.
pub proof fn lemma_run_keeps(g: GridView, t: PendingView)
    ensures
        run(g, t).1.id == t.id,
        run(g, t).1.transaction_type == t.transaction_type,
        run(g, t).1.sequence_num == t.sequence_num,
        run(g, t).1.cursor == t.cursor,
        run(g, t).1.complete == t.complete,
        run(g, t).1.waiting_for_async is None ==> run(g, t).1.operations.len() == 0,
        !t.transaction_type.spec_is_local() && t.waiting_for_async is None ==> run(
            g,
            t,
        ).1.waiting_for_async is None && run(g, t).1.has_async == t.has_async,
        run(g, t).0.len() == g.len(),
    decreases expanding(t.operations), t.operations.len(),
{
    if !(t.operations.len() == 0 || t.waiting_for_async is Some) {
        lemma_step_decreases(g, t);
        let (g2, t2) = step(g, t);
        lemma_step_keeps(g, t);
        lemma_run_keeps(g2, t2);
    }
}

/// A step leaves alone what identifies the transaction.
pub proof fn lemma_step_keeps(g: GridView, t: PendingView)
    requires
        t.operations.len() > 0,
    ensures
        step(g, t).1.id == t.id,
        step(g, t).1.transaction_type == t.transaction_type,
        step(g, t).1.sequence_num == t.sequence_num,
        step(g, t).1.cursor == t.cursor,
        step(g, t).1.complete == t.complete,
        !t.transaction_type.spec_is_local() ==> step(g, t).1.waiting_for_async
            == t.waiting_for_async && step(g, t).1.has_async == t.has_async,
        step(g, t).0.len() == g.len(),
{
    let rest = PendingView { operations: t.operations.drop_first(), ..t };
    match t.operations[0] {
        Operation::CheckSpills { sheet_rect } => {
            lemma_swept_keeps(
                g,
                rest,
                sheet_rect.sheet_id,
                0,
                runs_len(g, sheet_rect.sheet_id),
                Some(sheet_rect.spec_rect()),
            );
        },
        Operation::CheckAllSpills { sheet_id } => {
            lemma_swept_keeps(g, rest, sheet_id, 0, runs_len(g, sheet_id), None);
        },
        _ => {},
    }
}

/// On a queue of primitive edits, with nothing recorded before, a run
/// carries out each edit in turn: the grid afterwards is the grid with the
/// edits applied, and the undoing edits recorded are those of the list.
pub proof fn lemma_run_primitive(g: GridView, t: PendingView)
    requires
        all_primitive(t.operations),
        t.waiting_for_async is None,
    ensures
        run(g, t).0 == apply_ops(g, t.operations),
        run(g, t).1.reverse_operations == reverse_ops(g, t.operations) + t.reverse_operations,
        run(g, t).1.operations.len() == 0,
        run(g, t).1.waiting_for_async is None,
    decreases t.operations.len(),
{
    if t.operations.len() > 0 {
        let op = t.operations[0];
        assert(op.is_primitive());
        let (g2, t2) = step(g, t);
        assert forall|i: int| 0 <= i < t2.operations.len() implies (
        #[trigger] t2.operations[i]).is_primitive() by {
            assert(t2.operations[i] == t.operations[i + 1]);
        }
        lemma_expanding_primitive(t.operations);
        lemma_expanding_primitive(t2.operations);
        lemma_run_primitive(g2, t2);
        assert(run(g, t) == run(g2, t2));
        assert(reverse_ops(g2, t2.operations) + t2.reverse_operations =~= reverse_ops(
            g,
            t.operations,
        ) + t.reverse_operations);
    } else {
        assert(reverse_ops(g, t.operations) + t.reverse_operations =~= t.reverse_operations);
    }
}

} // verus!
