//! The order that the log keeps.

use crate::controller::execution::reconcile::{
    client_applied, core_applied, drain, insert_index, is_insert_index, lower_than, reapplied_from,
    reapplied_one, rolled_back,
};

use crate::controller::grid_controller::ControllerView;
use crate::controller::pending_transaction::PendingView;
use crate::controller::transaction::TransactionView;

use vstd::prelude::*;

verus! {

/// Whether the waiting transactions `buffer` all have a number beyond
/// `last` and stand by falling number.
pub open spec fn ahead_in_order(buffer: Seq<TransactionView>, last: u64) -> bool {
    &&& forall|i: int|
        0 <= i < buffer.len() ==> (#[trigger] buffer[i]).sequence_num is Some
            && buffer[i].sequence_num->0 > last
    &&& forall|i: int, j: int|
        0 <= i < j < buffer.len() ==> (#[trigger] buffer[i]).sequence_num->0 >= (
        #[trigger] buffer[j]).sequence_num->0
}

/// What is left after draining is the front of the buffer, and lies
/// beyond the last number taken, which is no lower than where the
/// draining began.
pub proof fn lemma_drain_order(buffer: Seq<TransactionView>, current: u64, last: u64)
    requires
        ahead_in_order(buffer, last),
    ensures
        drain(buffer, current).2 >= current,
        drain(buffer, current).0.len() <= buffer.len(),
        drain(buffer, current).0 == buffer.subrange(0, drain(buffer, current).0.len() as int),
        ahead_in_order(drain(buffer, current).0, drain(buffer, current).2),
    decreases buffer.len(),
{
    if buffer.len() > 0 {
        let t = buffer.last();
        let front = buffer.drop_last();
        assert(t.sequence_num is Some);
        let s = t.sequence_num->0;
        assert forall|i: int| 0 <= i < front.len() implies (#[trigger] front[i]).sequence_num
            is Some && front[i].sequence_num->0 > last by {
            assert(front[i] == buffer[i]);
        }
        assert forall|i: int, j: int| 0 <= i < j < front.len() implies (
        #[trigger] front[i]).sequence_num->0 >= (#[trigger] front[j]).sequence_num->0 by {
            assert(front[i] == buffer[i] && front[j] == buffer[j]);
        }
        if s <= current {
            lemma_drain_order(front, current, last);
            let rest = drain(front, current).0;
            assert(rest =~= buffer.subrange(0, rest.len() as int));
        } else if s == current + 1 {
            lemma_drain_order(front, s, last);
            let rest = drain(front, s).0;
            assert(rest =~= buffer.subrange(0, rest.len() as int));
        } else {
            assert(buffer =~= buffer.subrange(0, buffer.len() as int));
            assert forall|i: int| 0 <= i < buffer.len() implies (
            #[trigger] buffer[i]).sequence_num->0 > current by {
                if i < buffer.len() - 1 {
                    assert(buffer[i].sequence_num->0 >= buffer[buffer.len() - 1].sequence_num->0);
                }
            }
        }
    } else {
        assert(buffer =~= buffer.subrange(0, 0));
    }
}

/// There is a place for every transaction that comes too early.
pub proof fn lemma_insert_index_exists(buffer: Seq<TransactionView>, sequence_num: u64, k: int)
    requires
        0 <= k <= buffer.len(),
        forall|j: int| 0 <= j < k ==> !lower_than((#[trigger] buffer[j]).sequence_num, sequence_num),
    ensures
        is_insert_index(buffer, sequence_num, insert_index(buffer, sequence_num)),
    decreases buffer.len() - k,
{
    if k == buffer.len() || lower_than(buffer[k].sequence_num, sequence_num) {
        assert(is_insert_index(buffer, sequence_num, k));
    } else {
        lemma_insert_index_exists(buffer, sequence_num, k + 1);
    }
}

/// Carrying unsaved work out again leaves the numbers of the log alone.
pub proof fn lemma_reapplied_keeps_log(c: ControllerView, t: PendingView, i: int)
    ensures
        reapplied_from(c, t, i).0.log.last_sequence_num == c.log.last_sequence_num,
        reapplied_from(c, t, i).0.log.out_of_order_transactions
            == c.log.out_of_order_transactions,
        reapplied_from(c, t, i).0.log.last_get_transactions_time
            == c.log.last_get_transactions_time,
    decreases c.log.unsaved_transactions.len() - i,
{
    if !(i < 0 || i >= c.log.unsaved_transactions.len()) {
        let (c2, p) = reapplied_one(c, i);
        lemma_reapplied_keeps_log(c2, t.absorb(p), i + 1);
    }
}

/// What is drained ends no lower than where it began.
pub proof fn lemma_drain_rises(buffer: Seq<TransactionView>, current: u64)
    ensures
        drain(buffer, current).2 >= current,
    decreases buffer.len(),
{
    if buffer.len() > 0 {
        match buffer.last().sequence_num {
            Some(s) => {
                if s <= current {
                    lemma_drain_rises(buffer.drop_last(), current);
                } else if s == current + 1 {
                    lemma_drain_rises(buffer.drop_last(), s);
                }
            },
            None => {
                lemma_drain_rises(buffer.drop_last(), current);
            },
        }
    }
}

/// The last number carried out never falls.
pub proof fn lemma_last_never_falls(c: ControllerView, t: PendingView, sequence_num: u64)
    ensures
        client_applied(c, t, sequence_num).0.log.last_sequence_num >= c.log.last_sequence_num,
{
    if sequence_num == c.log.last_sequence_num + 1 {
        let (c1, t1) = rolled_back(c, t);
        lemma_drain_rises(c.log.out_of_order_transactions, sequence_num);
        let (c2, t2) = core_applied(c1, t1, sequence_num);
        assert(c2.log.last_sequence_num == drain(c.log.out_of_order_transactions, sequence_num).2);
        lemma_reapplied_keeps_log(c2, t2, 0);
    }
}

/// The log stays in order.
///
/// Whatever is received, the transactions that wait keep a number beyond
/// the last one carried out and stay sorted by falling number, and the
/// last number carried out never falls.
pub proof fn log_stays_in_order(c: ControllerView, t: PendingView, sequence_num: u64)
    requires
        c.log.wf(),
    ensures
        client_applied(c, t, sequence_num).0.log.wf(),
        client_applied(c, t, sequence_num).0.log.last_sequence_num >= c.log.last_sequence_num,
        sequence_num == c.log.last_sequence_num + 1 ==> client_applied(
            c,
            t,
            sequence_num,
        ).0.log.last_sequence_num >= sequence_num,
        sequence_num <= c.log.last_sequence_num ==> client_applied(c, t, sequence_num).0 == c,
{
    let buffer = c.log.out_of_order_transactions;
    let last = c.log.last_sequence_num;
    assert(ahead_in_order(buffer, last));
    if sequence_num == last + 1 {
        let (c1, t1) = rolled_back(c, t);
        assert(c1.log.out_of_order_transactions == buffer);
        assert(c1.log.last_sequence_num == last);
        lemma_drain_order(buffer, sequence_num, last);
        let (c2, t2) = core_applied(c1, t1, sequence_num);
        assert(c2.log.out_of_order_transactions == drain(buffer, sequence_num).0);
        assert(c2.log.last_sequence_num == drain(buffer, sequence_num).2);
        lemma_reapplied_keeps_log(c2, t2, 0);
    } else if sequence_num > last {
        lemma_insert_index_exists(buffer, sequence_num, 0);
        let i = insert_index(buffer, sequence_num);
        let entry = t.to_transaction(Some(sequence_num));
        let after = buffer.insert(i, entry);
        assert forall|a: int, b: int| 0 <= a < b < after.len() implies (
        #[trigger] after[a]).sequence_num->0 >= (#[trigger] after[b]).sequence_num->0 by {
            if b < i {
                assert(after[a] == buffer[a] && after[b] == buffer[b]);
            } else if b == i {
                assert(after[a] == buffer[a]);
                assert(!lower_than(buffer[a].sequence_num, sequence_num));
            } else if a < i {
                assert(after[a] == buffer[a] && after[b] == buffer[b - 1]);
            } else if a == i {
                assert(after[b] == buffer[b - 1]);
                assert(buffer[i].sequence_num->0 >= buffer[b - 1].sequence_num->0 || i == b - 1);
            } else {
                assert(after[a] == buffer[a - 1] && after[b] == buffer[b - 1]);
            }
        }
        assert forall|a: int| 0 <= a < after.len() implies (#[trigger] after[a]).sequence_num
            is Some && after[a].sequence_num->0 > last by {
            if a < i {
                assert(after[a] == buffer[a]);
            } else if a > i {
                assert(after[a] == buffer[a - 1]);
            }
        }
    }
}

} // verus!
