//! Two participants that edit the same cell: where they end, and what
//! each sees on the way.

use crate::controller::execution::model::{lemma_run_primitive, run};
use crate::controller::execution::reconcile::{
    client_applied, drain, forward_ops, helper, incoming, rollback_ops, without_own,
};
use crate::controller::execution::finalized;
use crate::controller::grid_controller::ControllerView;
use crate::controller::guarantees::{
    advanced, arrival_order_is_immaterial, last_write, lemma_last_write, local_edit_stays_on_top, next_transaction_goes_underneath, receipt_keeps_layers,
    still_unsaved,
};
use crate::controller::layers::{base, layered};
use crate::controller::operation::{all_primitive, apply_ops, lemma_apply_ops_wf, Operation};
use crate::controller::transaction::{TransactionType, UnsavedView};
use crate::controller::transactions::{is_first_unsaved, unsaved_index};
use crate::controller::undo_records::{lemma_one_edit, receipt_leaves_stacks};
use crate::controller::user_actions::local_transaction;
use crate::grid::{sheet_index, GridView};
use crate::position::SheetPos;
use crate::values::CellValue;
use vstd::prelude::*;

verus! {

/// The controller after the transaction `id` of the sequencer with the
/// number `sequence_num` was received.
pub open spec fn received(
    c: ControllerView,
    id: u128,
    operations: Seq<Operation>,
    sequence_num: u64,
) -> ControllerView {
    let (r, t) = client_applied(c, incoming(id, operations), sequence_num);
    finalized(r, t)
}

/// Whether the participant `c` has seen the sequencer's transactions up
/// to the number `n`, which have led to the grid `below`, has nothing
/// waiting, and has the unsaved transactions `ids` on top.
pub open spec fn follows(c: ControllerView, below: GridView, n: u64, ids: Seq<u128>) -> bool {
    &&& layered(c.grid, c.log.unsaved_transactions)
    &&& base(c.grid, c.log.unsaved_transactions) == below
    &&& c.log.last_sequence_num == n
    &&& c.log.out_of_order_transactions.len() == 0
    &&& c.log.unsaved_transactions.len() == ids.len()
    &&& forall|k: int| 0 <= k < ids.len() ==> (#[trigger] c.log.unsaved_transactions[k]).id == ids[k]
}

/// The unsaved transactions `ids` once the transaction `id` has come
/// back from the sequencer.
pub open spec fn acknowledged(ids: Seq<u128>, id: u128) -> Seq<u128> {
    if ids.len() == 1 && ids[0] == id {
        Seq::empty()
    } else {
        ids
    }
}

/// A participant with at most one unsaved transaction that receives the
/// next transaction, made of primitive edits, follows the sequencer one
/// number further.
pub proof fn lemma_next_received(
    c: ControllerView,
    below: GridView,
    n: u64,
    ids: Seq<u128>,
    id: u128,
    operations: Seq<Operation>,
)
    requires
        follows(c, below, n, ids),
        ids.len() <= 1,
        n < u64::MAX,
        all_primitive(operations),
    ensures
        follows(
            received(c, id, operations, (n + 1) as u64),
            apply_ops(below, operations),
            (n + 1) as u64,
            acknowledged(ids, id),
        ),
{
    let s = (n + 1) as u64;
    let unsaved = c.log.unsaved_transactions;
    next_transaction_goes_underneath(c, id, operations, s);
    receipt_keeps_layers(c, id, operations, s);
    let buffer = c.log.out_of_order_transactions;
    assert(buffer =~= Seq::empty());
    assert(drain(buffer, s) == (buffer, Seq::<Operation>::empty(), s, Seq::<u128>::empty()));
    lemma_run_primitive(below, incoming(id, operations));
    let g1 = run(below, incoming(id, operations)).0;
    assert(run(g1, helper(Seq::empty())) == (g1, helper(Seq::empty())));
    assert(advanced(below, id, operations, buffer, s) == apply_ops(below, operations));
    let left = still_unsaved(unsaved, id, buffer, s);
    assert(left == without_own(unsaved, id));
    if ids.len() == 1 && ids[0] == id {
        assert(is_first_unsaved(unsaved, id, 0));
        let k = unsaved_index(unsaved, id)->0;
        assert(is_first_unsaved(unsaved, id, k));
        assert(k == 0);
        assert(left =~= Seq::<UnsavedView>::empty());
    } else {
        if unsaved_index(unsaved, id) is Some {
            let k = unsaved_index(unsaved, id)->0;
            assert(is_first_unsaved(unsaved, id, k));
            assert(unsaved[k].id == ids[k]);
        }
        assert(left == unsaved);
    }
}

/// Two participants that edit the same cell end with the same grid.
///
/// Let two participants hold the same grid, with no work of their own
/// and nothing waiting, and let each store a value in the same cell.
/// The sequencer gives the first edit the next number and the second
/// the one after it, and each participant receives both in that order.
/// Then both hold the same grid, in which the cell holds what the edit
/// with the higher number stored, and neither has unsaved work left. A
/// participant that receives the second before the first holds that
/// grid too.
pub proof fn two_editors_converge(
    c: ControllerView,
    sheet_pos: SheetPos,
    first_id: u128,
    first: CellValue,
    second_id: u128,
    second: CellValue,
    cursor: Option<String>,
)
    requires
        layered(c.grid, c.log.unsaved_transactions),
        c.log.unsaved_transactions.len() == 0,
        c.log.out_of_order_transactions.len() == 0,
        c.log.last_sequence_num < u64::MAX - 1,
        sheet_index(c.grid, sheet_pos.sheet_id) is Some,
        first_id != second_id,
    ensures
        ({
            let n = c.log.last_sequence_num;
            let i = sheet_index(c.grid, sheet_pos.sheet_id)->0;
            let one = seq![Operation::SetCellValue { sheet_pos, value: first }];
            let two = seq![Operation::SetCellValue { sheet_pos, value: second }];
            let a = local_transaction(c, first_id, TransactionType::User, one, cursor).0;
            let b = local_transaction(c, second_id, TransactionType::User, two, cursor).0;
            let a2 = received(
                received(a, first_id, one, (n + 1) as u64),
                second_id,
                two,
                (n + 2) as u64,
            );
            let b2 = received(
                received(b, first_id, one, (n + 1) as u64),
                second_id,
                two,
                (n + 2) as u64,
            );
            let late = received(
                received(b, second_id, two, (n + 2) as u64),
                first_id,
                one,
                (n + 1) as u64,
            );
            &&& a2.grid == b2.grid
            &&& late.grid == b2.grid
            &&& late.log.unsaved_transactions.len() == 0
            &&& late.log.last_sequence_num == n + 2
            &&& sheet_index(a2.grid, sheet_pos.sheet_id) == Some(i)
            &&& a2.grid[i].cell(sheet_pos.spec_pos()) == second
            &&& a2.log.unsaved_transactions.len() == 0
            &&& b2.log.unsaved_transactions.len() == 0
            &&& a2.log.last_sequence_num == n + 2
            &&& b2.log.last_sequence_num == n + 2
        }),
{
    let n = c.log.last_sequence_num;
    let i = sheet_index(c.grid, sheet_pos.sheet_id)->0;
    let op1 = Operation::SetCellValue { sheet_pos, value: first };
    let op2 = Operation::SetCellValue { sheet_pos, value: second };
    let one = seq![op1];
    let two = seq![op2];
    assert(all_primitive(one));
    assert(all_primitive(two));
    lemma_one_edit(c, first_id, sheet_pos, first, cursor);
    lemma_one_edit(c, second_id, sheet_pos, second, cursor);
    let a = local_transaction(c, first_id, TransactionType::User, one, cursor).0;
    let b = local_transaction(c, second_id, TransactionType::User, two, cursor).0;
    assert(follows(a, c.grid, n, seq![first_id]));
    assert(follows(b, c.grid, n, seq![second_id]));
    let g1 = apply_ops(c.grid, one);
    let g2 = apply_ops(g1, two);
    lemma_next_received(a, c.grid, n, seq![first_id], first_id, one);
    lemma_next_received(b, c.grid, n, seq![second_id], first_id, one);
    let a1 = received(a, first_id, one, (n + 1) as u64);
    let b1 = received(b, first_id, one, (n + 1) as u64);
    assert(acknowledged(seq![first_id], first_id) =~= Seq::<u128>::empty());
    assert(acknowledged(seq![second_id], first_id) == seq![second_id]);
    lemma_next_received(a1, g1, (n + 1) as u64, Seq::empty(), second_id, two);
    lemma_next_received(b1, g1, (n + 1) as u64, seq![second_id], second_id, two);
    let a2 = received(a1, second_id, two, (n + 2) as u64);
    let b2 = received(b1, second_id, two, (n + 2) as u64);
    assert(acknowledged(Seq::<u128>::empty(), second_id) =~= Seq::<u128>::empty());
    assert(acknowledged(seq![second_id], second_id) =~= Seq::<u128>::empty());
    assert(follows(a2, g2, (n + 2) as u64, Seq::empty()));
    assert(follows(b2, g2, (n + 2) as u64, Seq::empty()));
    assert(rollback_ops(a2.log.unsaved_transactions) =~= Seq::<Operation>::empty());
    assert(rollback_ops(b2.log.unsaved_transactions) =~= Seq::<Operation>::empty());
    assert(a2.grid == g2);
    assert(b2.grid == g2);
    // the other order of arrival
    arrival_order_is_immaterial(b, first_id, one, second_id, two);
    let early = received(b, second_id, two, (n + 2) as u64);
    receipt_leaves_stacks(b, second_id, two, (n + 2) as u64);
    receipt_leaves_stacks(early, first_id, one, (n + 1) as u64);
    receipt_leaves_stacks(b, first_id, one, (n + 1) as u64);
    receipt_leaves_stacks(b1, second_id, two, (n + 2) as u64);
    // what the cell holds
    crate::controller::layers::lemma_base(c.grid, c.log.unsaved_transactions);
    lemma_last_write(c.grid, one, sheet_pos, i);
    lemma_apply_ops_wf(c.grid, one);
    assert(two.drop_last() =~= Seq::<Operation>::empty());
    lemma_last_write(g1, two, sheet_pos, i);
}

/// A transaction that joins the unsaved ones stays among them when
/// another one leaves.
pub proof fn lemma_without_own_push(unsaved: Seq<UnsavedView>, u: UnsavedView, id: u128)
    requires
        u.id != id,
    ensures
        without_own(unsaved.push(u), id) == without_own(unsaved, id).push(u),
{
    let more = unsaved.push(u);
    if unsaved_index(unsaved, id) is Some {
        let k = unsaved_index(unsaved, id)->0;
        assert(is_first_unsaved(unsaved, id, k));
        assert(is_first_unsaved(more, id, k)) by {
            assert(more[k] == unsaved[k]);
            assert forall|j: int| 0 <= j < k implies (#[trigger] more[j]).id != id by {
                assert(more[j] == unsaved[j]);
            }
        }
        let m = unsaved_index(more, id)->0;
        assert(is_first_unsaved(more, id, m));
        assert(m == k);
        assert(more.remove(k) =~= unsaved.remove(k).push(u));
    } else {
        if unsaved_index(more, id) is Some {
            let m = unsaved_index(more, id)->0;
            assert(is_first_unsaved(more, id, m));
            assert(m < unsaved.len());
            assert(is_first_unsaved(unsaved, id, m)) by {
                assert(more[m] == unsaved[m]);
                assert forall|j: int| 0 <= j < m implies (#[trigger] unsaved[j]).id != id by {
                    assert(more[j] == unsaved[j]);
                }
            }
        }
    }
}

/// A local edit stays on top of what another participant did.
///
/// Let a user store a value in a cell while nothing is waiting, and let
/// then a transaction of another participant be received, whatever its
/// number and whatever it stores in that cell. Afterwards the cell
/// still holds the user's value, and shows it unless it is blank or the
/// source of a code cell.
pub proof fn local_edit_survives_remote(
    c: ControllerView,
    id: u128,
    sheet_pos: SheetPos,
    value: CellValue,
    cursor: Option<String>,
    remote_id: u128,
    remote: Seq<Operation>,
    sequence_num: u64,
)
    requires
        layered(c.grid, c.log.unsaved_transactions),
        c.log.out_of_order_transactions.len() == 0,
        sheet_index(c.grid, sheet_pos.sheet_id) is Some,
        remote_id != id,
    ensures
        ({
            let i = sheet_index(c.grid, sheet_pos.sheet_id)->0;
            let c1 = local_transaction(
                c,
                id,
                TransactionType::User,
                seq![Operation::SetCellValue { sheet_pos, value }],
                cursor,
            ).0;
            let c2 = received(c1, remote_id, remote, sequence_num);
            &&& sheet_index(c2.grid, sheet_pos.sheet_id) == Some(i)
            &&& c2.grid[i].cell(sheet_pos.spec_pos()) == value
            &&& !(value is Blank) && !(value is Code) ==> c2.grid[i].display(
                sheet_pos.spec_pos(),
            ) == Some(value)
        }),
{
    let i = sheet_index(c.grid, sheet_pos.sheet_id)->0;
    let op = Operation::SetCellValue { sheet_pos, value };
    let ops = seq![op];
    lemma_one_edit(c, id, sheet_pos, value, cursor);
    let c1 = local_transaction(c, id, TransactionType::User, ops, cursor).0;
    let u = c1.log.unsaved_transactions.last();
    receipt_leaves_stacks(c1, remote_id, remote, sequence_num);
    receipt_keeps_layers(c1, remote_id, remote, sequence_num);
    let c2 = received(c1, remote_id, remote, sequence_num);
    assert(ops.last() == op);
    assert(last_write(ops, sheet_pos) == Some(value));
    if sequence_num == c1.log.last_sequence_num + 1 {
        let buffer = c1.log.out_of_order_transactions;
        assert(buffer =~= Seq::empty());
        assert(drain(buffer, sequence_num) == (
            buffer,
            Seq::<Operation>::empty(),
            sequence_num,
            Seq::<u128>::empty(),
        ));
        lemma_without_own_push(c.log.unsaved_transactions, u, remote_id);
        let rest = without_own(c.log.unsaved_transactions, remote_id);
        let left = still_unsaved(c1.log.unsaved_transactions, remote_id, buffer, sequence_num);
        assert(left == rest.push(u));
        assert(left.drop_last() =~= rest);
        assert(forward_ops(left) == forward_ops(rest) + ops);
        assert((forward_ops(rest) + ops).last() == op);
        assert(last_write(forward_ops(left), sheet_pos) == Some(value));
        local_edit_stays_on_top(c1, remote_id, remote, sequence_num, sheet_pos);
    } else {
        crate::controller::layers::lemma_base(c.grid, c.log.unsaved_transactions);
        assert(ops.drop_last() =~= Seq::<Operation>::empty());
        lemma_last_write(c.grid, ops, sheet_pos, i);
        if !(value is Blank) && !(value is Code) {
            c2.grid[i].lemma_shows(sheet_pos.spec_pos());
        }
    }
}

} // verus!
