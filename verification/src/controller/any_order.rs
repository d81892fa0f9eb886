//! Transactions take effect in the order of their numbers, in whatever
//! order they arrive.

use crate::controller::execution::model::{
    code_cell_at, expanding, flip_op, lemma_step_decreases, lemma_step_keeps, lemma_swept_keeps,
    move_expansion, performed, run, runs_len, step, store_run_ops, swept,
};
use crate::controller::execution::reconcile::{
    client_applied, drain, helper, incoming, insert_index, lower_than, rollback_ops,
    ServerTransactionView,
};
use crate::controller::grid_controller::ControllerView;
use crate::controller::layers::{base, layered};
use crate::controller::log_order::lemma_insert_index_exists;
use crate::controller::guarantees::{lemma_run_similar, next_transaction_goes_underneath};
use crate::controller::operation::Operation;
use crate::controller::pending_transaction::PendingView;
use crate::controller::transaction::TransactionView;
use crate::formulas::run::formula_run;
use crate::grid::{sheet_index, GridView};
use crate::position::{Rect, SheetId};
use vstd::prelude::*;

verus! {

/// A check for spills changes the grid by the grid alone, whatever the
/// transaction holds.
pub proof fn lemma_swept_grid(
    g: GridView,
    a: PendingView,
    b: PendingView,
    sheet_id: SheetId,
    i: int,
    n: int,
    rect: Option<Rect>,
)
    ensures
        swept(g, a, sheet_id, i, n, rect).0 == swept(g, b, sheet_id, i, n, rect).0,
    decreases n - i,
{
    match sheet_index(g, sheet_id) {
        None => {},
        Some(si) => {
            if !(i < 0 || i >= n || i >= g[si].code_runs.len()) {
                let (pos, run) = g[si].code_runs[i];
                let blocked = g[si].blocked(i);
                let in_scope = match rect {
                    Some(r) => run.spec_output_rect(pos, true).spec_intersects(r),
                    None => true,
                };
                if in_scope && blocked != run.spill_error {
                    let op = flip_op(g[si], i, blocked);
                    let (g2, a2) = performed(g, a, op);
                    let (g3, b2) = performed(g, b, op);
                    lemma_swept_grid(g2, a2, b2, sheet_id, i + 1, n, None);
                } else {
                    lemma_swept_grid(g, a, b, sheet_id, i + 1, n, rect);
                }
            }
        },
    }
}

/// The transaction `a` with the edits `more` behind its own.
pub open spec fn followed_by(a: PendingView, more: Seq<Operation>) -> PendingView {
    PendingView { operations: a.operations + more, ..a }
}

/// A step takes the first edit; what stands behind it in the queue
/// stays behind.
pub proof fn lemma_step_followed(g: GridView, a: PendingView, more: Seq<Operation>)
    requires
        a.operations.len() > 0,
        !a.transaction_type.spec_is_local(),
        a.waiting_for_async is None,
    ensures
        step(g, followed_by(a, more)).0 == step(g, a).0,
        step(g, followed_by(a, more)).1.operations == step(g, a).1.operations + more,
{
    let ab = followed_by(a, more);
    let rest_a = PendingView { operations: a.operations.drop_first(), ..a };
    let rest_ab = PendingView { operations: ab.operations.drop_first(), ..ab };
    assert(ab.operations[0] == a.operations[0]);
    assert(ab.operations.drop_first() =~= a.operations.drop_first() + more);
    match a.operations[0] {
        Operation::CheckSpills { sheet_rect } => {
            let n = runs_len(g, sheet_rect.sheet_id);
            let r = Some(sheet_rect.spec_rect());
            lemma_swept_grid(g, rest_a, rest_ab, sheet_rect.sheet_id, 0, n, r);
            lemma_swept_keeps(g, rest_a, sheet_rect.sheet_id, 0, n, r);
            lemma_swept_keeps(g, rest_ab, sheet_rect.sheet_id, 0, n, r);
        },
        Operation::CheckAllSpills { sheet_id } => {
            let n = runs_len(g, sheet_id);
            lemma_swept_grid(g, rest_a, rest_ab, sheet_id, 0, n, None);
            lemma_swept_keeps(g, rest_a, sheet_id, 0, n, None);
            lemma_swept_keeps(g, rest_ab, sheet_id, 0, n, None);
        },
        Operation::MoveCells { source, dest } => {
            let e = move_expansion(g, source, dest);
            if e is Some {
                assert(e->0 + (a.operations.drop_first() + more) =~= (e->0
                    + a.operations.drop_first()) + more);
            }
        },
        Operation::ComputeCode { sheet_pos } => {
            let cc = code_cell_at(g, sheet_pos);
            if cc is Some && !cc->0.language.spec_is_async() {
                let ops = store_run_ops(
                    sheet_pos,
                    formula_run(
                        g[sheet_index(g, sheet_pos.sheet_id)->0],
                        sheet_pos.spec_pos(),
                        cc->0.code@,
                    ),
                );
                assert(ops + (a.operations.drop_first() + more) =~= (ops
                    + a.operations.drop_first()) + more);
            }
        },
        _ => {},
    }
}

/// Carrying out two lists of edits in one go is carrying out the first
/// and then, on the grid that this gives, the second.
pub proof fn lemma_run_followed(g: GridView, a: PendingView, more: Seq<Operation>)
    requires
        !a.transaction_type.spec_is_local(),
        a.waiting_for_async is None,
    ensures
        run(g, followed_by(a, more)).0 == run(run(g, a).0, helper(more)).0,
    decreases expanding(a.operations), a.operations.len(),
{
    let ab = followed_by(a, more);
    if a.operations.len() == 0 {
        assert(ab.operations =~= more);
        lemma_run_similar(g, ab, helper(more));
    } else {
        lemma_step_decreases(g, a);
        lemma_step_keeps(g, a);
        lemma_step_keeps(g, ab);
        lemma_step_followed(g, a, more);
        let (g1, a1) = step(g, a);
        let (g2, ab1) = step(g, ab);
        lemma_run_followed(g1, a1, more);
        lemma_run_similar(g1, ab1, followed_by(a1, more));
    }
}

/// Whether the transactions carry the numbers that follow `first`, in order.
pub open spec fn numbered_from(txs: Seq<ServerTransactionView>, first: u64) -> bool {
    forall|i: int| 0 <= i < txs.len() ==> (#[trigger] txs[i]).sequence_num == first + i + 1
}

/// The grid after the transactions `txs[from..to]` were carried out on
/// `g`, one after the other.
pub open spec fn sequenced(g: GridView, txs: Seq<ServerTransactionView>, from: int, to: int) -> GridView
    decreases to - from,
{
    if from < 0 || from >= to || to > txs.len() {
        g
    } else {
        run(
            sequenced(g, txs, from, to - 1),
            incoming(txs[to - 1].id, txs[to - 1].operations),
        ).0
    }
}

/// Carrying out transactions one after the other can be split anywhere.
pub proof fn lemma_sequenced_split(
    g: GridView,
    txs: Seq<ServerTransactionView>,
    from: int,
    mid: int,
    to: int,
)
    requires
        0 <= from <= mid <= to <= txs.len(),
    ensures
        sequenced(g, txs, from, to) == sequenced(sequenced(g, txs, from, mid), txs, mid, to),
    decreases to - mid,
{
    if mid < to {
        lemma_sequenced_split(g, txs, from, mid, to - 1);
    }
}

/// A transaction as it waits in the log.
pub open spec fn waiting(t: ServerTransactionView) -> TransactionView {
    incoming(t.id, t.operations).to_transaction(Some(t.sequence_num))
}

/// Whether `buffer` holds exactly the transactions of `txs` from the
/// place `done` on that have arrived, by falling number.
pub open spec fn holds_arrived(
    buffer: Seq<TransactionView>,
    txs: Seq<ServerTransactionView>,
    first: u64,
    done: int,
    arrived: Set<int>,
) -> bool {
    &&& forall|j: int|
        0 <= j < buffer.len() ==> {
            let i = (#[trigger] buffer[j]).sequence_num->0 - first - 1;
            &&& buffer[j].sequence_num is Some
            &&& done <= i < txs.len()
            &&& arrived.contains(i)
            &&& buffer[j] == waiting(txs[i])
        }
    &&& forall|a: int, b: int|
        0 <= a < b < buffer.len() ==> (#[trigger] buffer[a]).sequence_num->0 > (
        #[trigger] buffer[b]).sequence_num->0
    &&& forall|i: int|
        done <= i < txs.len() && #[trigger] arrived.contains(i) ==> exists|j: int|
            0 <= j < buffer.len() && (#[trigger] buffer[j]).sequence_num->0 == first + i + 1
}

/// What is drained from a buffer that holds what has arrived: the
/// transactions that are due, as far as they have arrived without a gap.
/// Carrying out the drained edits is carrying out those transactions one
/// after the other; what stays in the buffer is what has arrived beyond
/// the gap.
pub proof fn lemma_drain_arrived(
    buffer: Seq<TransactionView>,
    txs: Seq<ServerTransactionView>,
    first: u64,
    done: int,
    arrived: Set<int>,
    g: GridView,
)
    requires
        numbered_from(txs, first),
        0 <= done <= txs.len(),
        holds_arrived(buffer, txs, first, done, arrived),
    ensures
        ({
            let (rest, due, last, ids) = drain(buffer, (first + done) as u64);
            let m = last - first;
            &&& done <= m <= txs.len()
            &&& forall|i: int| done <= i < m ==> arrived.contains(i)
            &&& m < txs.len() ==> !arrived.contains(m)
            &&& holds_arrived(rest, txs, first, m, arrived)
            &&& run(g, helper(due)).0 == sequenced(g, txs, done, m)
        }),
    decreases buffer.len(),
{
    if done < txs.len() {
        assert(txs[done].sequence_num == first + done + 1);
    }
    if done > 0 {
        assert(txs[done - 1].sequence_num == first + done);
    }
    let current = (first + done) as u64;
    if buffer.len() == 0 {
        assert(run(g, helper(Seq::<Operation>::empty())).0 == g);
    } else {
        let t = buffer.last();
        let front = buffer.drop_last();
        let s = t.sequence_num->0;
        let it = s - first - 1;
        assert(buffer[buffer.len() - 1] == t);
        assert(t == waiting(txs[it]));
        assert(txs[it].sequence_num == first + it + 1);
        if s == current + 1 {
            assert(it == done);
            assert forall|j: int| 0 <= j < front.len() implies {
                let i = (#[trigger] front[j]).sequence_num->0 - first - 1;
                &&& front[j].sequence_num is Some
                &&& done + 1 <= i < txs.len()
                &&& arrived.contains(i)
                &&& front[j] == waiting(txs[i])
            } by {
                assert(front[j] == buffer[j]);
                assert(buffer[j].sequence_num->0 > buffer[buffer.len() - 1].sequence_num->0);
            }
            assert forall|a: int, b: int| 0 <= a < b < front.len() implies (
            #[trigger] front[a]).sequence_num->0 > (#[trigger] front[b]).sequence_num->0 by {
                assert(front[a] == buffer[a] && front[b] == buffer[b]);
            }
            assert forall|i: int|
                done + 1 <= i < txs.len() && #[trigger] arrived.contains(i) implies exists|j: int|
                0 <= j < front.len() && (#[trigger] front[j]).sequence_num->0 == first + i
                    + 1 by {
                let j = choose|j: int|
                    0 <= j < buffer.len() && (#[trigger] buffer[j]).sequence_num->0 == first + i
                        + 1;
                assert(buffer[buffer.len() - 1].sequence_num->0 == first + done + 1);
                assert(j < buffer.len() - 1);
                assert(front[j] == buffer[j]);
            }
            let g1 = run(g, helper(t.operations)).0;
            lemma_drain_arrived(front, txs, first, done + 1, arrived, g1);
            let (rest, due, last, ids) = drain(front, s);
            let m = last - first;
            lemma_run_followed(g, helper(t.operations), due);
            assert(followed_by(helper(t.operations), due) == helper(t.operations + due));
            lemma_run_similar(g, helper(t.operations), incoming(txs[done].id, txs[done].operations));
            lemma_sequenced_split(g, txs, done, done + 1, m);
            assert(sequenced(g, txs, done, done + 1) == g1) by {
                assert(sequenced(g, txs, done, done) == g);
            }
        } else {
            assert(s > current + 1);
            assert(run(g, helper(Seq::<Operation>::empty())).0 == g);
            if arrived.contains(done) && done < txs.len() {
                let j = choose|j: int|
                    0 <= j < buffer.len() && (#[trigger] buffer[j]).sequence_num->0 == first
                        + done + 1;
                if j < buffer.len() - 1 {
                    assert(buffer[j].sequence_num->0 > buffer[buffer.len() - 1].sequence_num->0);
                }
            }
        }
    }
}

/// Whether the participant `c` is where the arrival of the transactions
/// `arrived` leaves it: its unsaved work is layered on the grid that the
/// transactions lead to as far as they have arrived without a gap, and
/// what has arrived beyond the gap waits.
pub open spec fn caught_up(
    c: ControllerView,
    start: GridView,
    txs: Seq<ServerTransactionView>,
    first: u64,
    arrived: Set<int>,
) -> bool {
    let done = c.log.last_sequence_num - first;
    &&& layered(c.grid, c.log.unsaved_transactions)
    &&& 0 <= done <= txs.len()
    &&& base(c.grid, c.log.unsaved_transactions) == sequenced(start, txs, 0, done)
    &&& forall|i: int| 0 <= i < done ==> arrived.contains(i)
    &&& done < txs.len() ==> !arrived.contains(done)
    &&& holds_arrived(c.log.out_of_order_transactions, txs, first, done, arrived)
}

/// One more transaction arrives.
pub proof fn lemma_arrival(
    c: ControllerView,
    start: GridView,
    txs: Seq<ServerTransactionView>,
    first: u64,
    arrived: Set<int>,
    i: int,
)
    requires
        numbered_from(txs, first),
        caught_up(c, start, txs, first, arrived),
        0 <= i < txs.len(),
        !arrived.contains(i),
    ensures
        caught_up(
            client_applied(c, incoming(txs[i].id, txs[i].operations), txs[i].sequence_num).0,
            start,
            txs,
            first,
            arrived.insert(i),
        ),
{
    let done = c.log.last_sequence_num - first;
    let s = txs[i].sequence_num;
    let buffer = c.log.out_of_order_transactions;
    let t = incoming(txs[i].id, txs[i].operations);
    let after = arrived.insert(i);
    assert(s == first + i + 1);
    assert(i >= done);
    if i == done {
        lemma_next_arrival(c, start, txs, first, arrived);
    } else {
        lemma_early_arrival(c, start, txs, first, arrived, i);
    }
}

/// The transaction that is due arrives.
pub proof fn lemma_next_arrival(
    c: ControllerView,
    start: GridView,
    txs: Seq<ServerTransactionView>,
    first: u64,
    arrived: Set<int>,
)
    requires
        numbered_from(txs, first),
        caught_up(c, start, txs, first, arrived),
        c.log.last_sequence_num - first < txs.len(),
    ensures
        ({
            let i = c.log.last_sequence_num - first;
            caught_up(
                client_applied(
                    c,
                    incoming(txs[i].id, txs[i].operations),
                    txs[i].sequence_num,
                ).0,
                start,
                txs,
                first,
                arrived.insert(i),
            )
        }),
{
    let done = c.log.last_sequence_num - first;
    let s = txs[done].sequence_num;
    let buffer = c.log.out_of_order_transactions;
    let after = arrived.insert(done);
    assert(s == first + done + 1);
    next_transaction_goes_underneath(c, txs[done].id, txs[done].operations, s);
    let below0 = base(c.grid, c.log.unsaved_transactions);
    let g1 = run(below0, incoming(txs[done].id, txs[done].operations)).0;
    assert forall|j: int| 0 <= j < buffer.len() implies {
        let k = (#[trigger] buffer[j]).sequence_num->0 - first - 1;
        &&& buffer[j].sequence_num is Some
        &&& done + 1 <= k < txs.len()
        &&& after.contains(k)
        &&& buffer[j] == waiting(txs[k])
    } by {
        let k = buffer[j].sequence_num->0 - first - 1;
        assert(arrived.contains(k));
    }
    assert forall|k: int|
        done + 1 <= k < txs.len() && #[trigger] after.contains(k) implies exists|j: int|
        0 <= j < buffer.len() && (#[trigger] buffer[j]).sequence_num->0 == first + k + 1 by {
        assert(arrived.contains(k));
    }
    assert(holds_arrived(buffer, txs, first, done + 1, after));
    lemma_drain_arrived(buffer, txs, first, done + 1, after, g1);
    let last = drain(buffer, s).2;
    let m = last - first;
    lemma_sequenced_split(start, txs, 0, done + 1, m);
    assert(sequenced(start, txs, 0, done + 1) == g1);
    assert forall|k: int| 0 <= k < m implies after.contains(k) by {
        if k < done {
            assert(arrived.contains(k));
        }
    }
}

/// A transaction arrives before it is due: it waits.
#[verifier::rlimit(60)]
pub proof fn lemma_early_arrival(
    c: ControllerView,
    start: GridView,
    txs: Seq<ServerTransactionView>,
    first: u64,
    arrived: Set<int>,
    i: int,
)
    requires
        numbered_from(txs, first),
        caught_up(c, start, txs, first, arrived),
        c.log.last_sequence_num - first < i < txs.len(),
        !arrived.contains(i),
    ensures
        caught_up(
            client_applied(c, incoming(txs[i].id, txs[i].operations), txs[i].sequence_num).0,
            start,
            txs,
            first,
            arrived.insert(i),
        ),
{
    let done = c.log.last_sequence_num - first;
    let s = txs[i].sequence_num;
    let buffer = c.log.out_of_order_transactions;
    let t = incoming(txs[i].id, txs[i].operations);
    let after = arrived.insert(i);
    assert(s == first + i + 1);
    lemma_insert_index_exists(buffer, s, 0);
    let at = insert_index(buffer, s);
    let entry = t.to_transaction(Some(s));
    let longer = buffer.insert(at, entry);
    let c2 = client_applied(c, t, s).0;
    assert(c2.log.out_of_order_transactions == longer);
    assert(entry == waiting(txs[i]));
    // no transaction with this number waits already
    assert forall|j: int| 0 <= j < buffer.len() implies (#[trigger] buffer[j]).sequence_num->0
        != s by {
        let k = buffer[j].sequence_num->0 - first - 1;
        assert(arrived.contains(k));
    }
    assert forall|j: int| 0 <= j < longer.len() implies {
        let k = (#[trigger] longer[j]).sequence_num->0 - first - 1;
        &&& longer[j].sequence_num is Some
        &&& done <= k < txs.len()
        &&& after.contains(k)
        &&& longer[j] == waiting(txs[k])
    } by {
        if j < at {
            assert(longer[j] == buffer[j]);
            let k = buffer[j].sequence_num->0 - first - 1;
            assert(arrived.contains(k));
        } else if j > at {
            assert(longer[j] == buffer[j - 1]);
            let k = buffer[j - 1].sequence_num->0 - first - 1;
            assert(arrived.contains(k));
        }
    }
    assert forall|a: int, b: int| 0 <= a < b < longer.len() implies (
    #[trigger] longer[a]).sequence_num->0 > (#[trigger] longer[b]).sequence_num->0 by {
        if b < at {
            assert(longer[a] == buffer[a] && longer[b] == buffer[b]);
        } else if b == at {
            assert(longer[a] == buffer[a]);
            assert(!lower_than(buffer[a].sequence_num, s));
            assert(buffer[a].sequence_num->0 != s);
        } else if a < at {
            assert(longer[a] == buffer[a] && longer[b] == buffer[b - 1]);
        } else if a == at {
            assert(longer[b] == buffer[b - 1]);
            assert(lower_than(buffer[at].sequence_num, s));
            if b - 1 > at {
                assert(buffer[at].sequence_num->0 > buffer[b - 1].sequence_num->0);
            }
        } else {
            assert(longer[a] == buffer[a - 1] && longer[b] == buffer[b - 1]);
        }
    }
    assert forall|k: int|
        done <= k < txs.len() && #[trigger] after.contains(k) implies exists|j: int|
        0 <= j < longer.len() && (#[trigger] longer[j]).sequence_num->0 == first + k + 1 by {
        if k == i {
            assert(longer[at].sequence_num->0 == first + k + 1);
        } else {
            assert(arrived.contains(k));
            let j = choose|j: int|
                0 <= j < buffer.len() && (#[trigger] buffer[j]).sequence_num->0 == first + k
                    + 1;
            if j < at {
                assert(longer[j] == buffer[j]);
            } else {
                assert(longer[j + 1] == buffer[j]);
            }
        }
    }
}

/// The participant after the transactions `txs[order[j]]`, for the
/// places `j` of `order` from `next` on, arrived in that order.
pub open spec fn received_in(
    c: ControllerView,
    txs: Seq<ServerTransactionView>,
    order: Seq<int>,
    next: int,
) -> ControllerView
    decreases order.len() - next,
{
    if next < 0 || next >= order.len() {
        c
    } else if 0 <= order[next] < txs.len() {
        received_in(
            client_applied(
                c,
                incoming(txs[order[next]].id, txs[order[next]].operations),
                txs[order[next]].sequence_num,
            ).0,
            txs,
            order,
            next + 1,
        )
    } else {
        received_in(c, txs, order, next + 1)
    }
}

/// The transactions that have arrived before the place `next` of `order`.
pub open spec fn arrived_before(order: Seq<int>, next: int) -> Set<int> {
    Set::new(|i: int| exists|j: int| 0 <= j < next && j < order.len() && #[trigger] order[j] == i)
}

/// The arrivals from the place `next` of `order` on.
pub proof fn lemma_arrivals(
    c: ControllerView,
    start: GridView,
    txs: Seq<ServerTransactionView>,
    first: u64,
    order: Seq<int>,
    next: int,
)
    requires
        numbered_from(txs, first),
        0 <= next <= order.len(),
        order.no_duplicates(),
        forall|j: int| 0 <= j < order.len() ==> 0 <= #[trigger] order[j] < txs.len(),
        caught_up(c, start, txs, first, arrived_before(order, next)),
    ensures
        caught_up(
            received_in(c, txs, order, next),
            start,
            txs,
            first,
            arrived_before(order, order.len() as int),
        ),
    decreases order.len() - next,
{
    if next < order.len() {
        let i = order[next];
        let before = arrived_before(order, next);
        if before.contains(i) {
            let j = choose|j: int| 0 <= j < next && j < order.len() && order[j] == i;
            assert(order[j] == order[next]);
        }
        lemma_arrival(c, start, txs, first, before, i);
        assert(before.insert(i) =~= arrived_before(order, next + 1)) by {
            assert forall|k: int| before.insert(i).contains(k) implies arrived_before(
                order,
                next + 1,
            ).contains(k) by {
                if k == i {
                    assert(order[next] == k);
                } else {
                    let j = choose|j: int| 0 <= j < next && j < order.len() && order[j] == k;
                    assert(0 <= j < next + 1 && order[j] == k);
                }
            }
            assert forall|k: int| arrived_before(order, next + 1).contains(k) implies before.insert(
                i,
            ).contains(k) by {
                let j = choose|j: int| 0 <= j < next + 1 && j < order.len() && order[j] == k;
                if j < next {
                    assert(before.contains(k));
                }
            }
        }
        lemma_arrivals(
            client_applied(c, incoming(txs[i].id, txs[i].operations), txs[i].sequence_num).0,
            start,
            txs,
            first,
            order,
            next + 1,
        );
    }
}

/// Any order of arrival gives the order of the numbers.
///
/// Let the sequencer have ordered the transactions `txs`, and let a
/// participant whose work is layered on the grid before them, and who
/// has nothing waiting, receive each of them once, in any order. Then
/// its work is layered on the grid that the transactions lead to when
/// they are carried out in the order of their numbers; nothing waits any
/// more; and the participant is as far as the last of the numbers. A
/// participant without unsaved work holds that very grid.
pub proof fn any_order_gives_the_sequence(
    c: ControllerView,
    txs: Seq<ServerTransactionView>,
    order: Seq<int>,
)
    requires
        layered(c.grid, c.log.unsaved_transactions),
        c.log.out_of_order_transactions.len() == 0,
        numbered_from(txs, c.log.last_sequence_num),
        order.no_duplicates(),
        forall|j: int| 0 <= j < order.len() ==> 0 <= #[trigger] order[j] < txs.len(),
        forall|i: int| 0 <= i < txs.len() ==> #[trigger] order.contains(i),
    ensures
        ({
            let after = received_in(c, txs, order, 0);
            let whole = sequenced(
                base(c.grid, c.log.unsaved_transactions),
                txs,
                0,
                txs.len() as int,
            );
            &&& layered(after.grid, after.log.unsaved_transactions)
            &&& base(after.grid, after.log.unsaved_transactions) == whole
            &&& after.log.last_sequence_num == c.log.last_sequence_num + txs.len()
            &&& after.log.out_of_order_transactions.len() == 0
            &&& after.log.unsaved_transactions.len() == 0 ==> after.grid == whole
        }),
{
    let first = c.log.last_sequence_num;
    let start = base(c.grid, c.log.unsaved_transactions);
    let none = arrived_before(order, 0);
    assert(caught_up(c, start, txs, first, none));
    lemma_arrivals(c, start, txs, first, order, 0);
    let after = received_in(c, txs, order, 0);
    let all = arrived_before(order, order.len() as int);
    let done = after.log.last_sequence_num - first;
    if done < txs.len() {
        assert(order.contains(done));
        let j = choose|j: int| 0 <= j < order.len() && order[j] == done;
        assert(all.contains(done));
    }
    if after.log.out_of_order_transactions.len() > 0 {
        let k = after.log.out_of_order_transactions[0].sequence_num->0 - first - 1;
        assert(done <= k < txs.len());
    }
    if after.log.unsaved_transactions.len() == 0 {
        assert(rollback_ops(after.log.unsaved_transactions) =~= Seq::<Operation>::empty());
    }
}

} // verus!
