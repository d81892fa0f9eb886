//! The transaction log of one open document.

use crate::controller::pending_transaction::{PendingTransaction, PendingView};
use crate::controller::transaction::{
    Transaction, TransactionView, UnsavedTransaction, UnsavedView,
};
use vstd::prelude::*;

verus! {

/// The content of the log.
pub struct LogView {
    pub last_sequence_num: u64,
    pub unsaved_transactions: Seq<UnsavedView>,
    pub out_of_order_transactions: Seq<TransactionView>,
    pub async_transactions: Seq<PendingView>,
    pub last_get_transactions_time: Option<i64>,
}

impl LogView {
    /// The log of a document that has seen `last_sequence_num` transactions
    /// of the sequencer and holds no work of its own.
    pub open spec fn new(last_sequence_num: u64) -> LogView {
        LogView {
            last_sequence_num,
            unsaved_transactions: Seq::empty(),
            out_of_order_transactions: Seq::empty(),
            async_transactions: Seq::empty(),
            last_get_transactions_time: None,
        }
    }

    /// Every transaction that waits for its predecessors has a sequence
    /// number beyond the last one carried out, and they stand by falling
    /// sequence number.
    pub open spec fn wf(self) -> bool {
        &&& forall|i: int|
            0 <= i < self.out_of_order_transactions.len() ==> {
                &&& (#[trigger] self.out_of_order_transactions[i]).sequence_num is Some
                &&& self.out_of_order_transactions[i].sequence_num->0 > self.last_sequence_num
            }
        &&& forall|i: int, j: int|
            0 <= i < j < self.out_of_order_transactions.len() ==> (
            #[trigger] self.out_of_order_transactions[i]).sequence_num->0 >= (
            #[trigger] self.out_of_order_transactions[j]).sequence_num->0
    }
}

/// The sequencing state of one open document.
#[derive(Debug)]
pub struct ActiveTransactions {
    /// The highest sequence number up to which every transaction of the
    /// sequencer has been carried out.
    pub last_sequence_num: u64,
    /// Transactions made here that the sequencer has not acknowledged, in
    /// the order in which they were made.
    pub unsaved_transactions: Vec<UnsavedTransaction>,
    /// Transactions of the sequencer that arrived before their
    /// predecessors, by falling sequence number.
    pub out_of_order_transactions: Vec<Transaction>,
    /// Transactions made here that wait for the result of a computation.
    pub async_transactions: Vec<PendingTransaction>,
    /// When the sequencer was last asked to send transactions again, in
    /// milliseconds since the Unix epoch.
    pub last_get_transactions_time: Option<i64>,
}

impl View for ActiveTransactions {
    type V = LogView;

    open spec fn view(&self) -> LogView {
        LogView {
            last_sequence_num: self.last_sequence_num,
            unsaved_transactions: self.unsaved_transactions@.map_values(
                |u: UnsavedTransaction| u@,
            ),
            out_of_order_transactions: self.out_of_order_transactions@.map_values(
                |t: Transaction| t@,
            ),
            async_transactions: self.async_transactions@.map_values(|t: PendingTransaction| t@),
            last_get_transactions_time: self.last_get_transactions_time,
        }
    }
}

/// The index of the first unsaved transaction with the identifier `id`.
pub open spec fn unsaved_index(unsaved: Seq<UnsavedView>, id: u128) -> Option<int> {
    if exists|i: int| is_first_unsaved(unsaved, id, i) {
        Some(choose|i: int| is_first_unsaved(unsaved, id, i))
    } else {
        None
    }
}

/// Whether `i` is the first unsaved transaction with the identifier `id`.
pub open spec fn is_first_unsaved(unsaved: Seq<UnsavedView>, id: u128, i: int) -> bool {
    &&& 0 <= i < unsaved.len()
    &&& unsaved[i].id == id
    &&& forall|j: int| 0 <= j < i ==> (#[trigger] unsaved[j]).id != id
}

/// The index of the first suspended transaction with the identifier `id`.
pub open spec fn async_index(pending: Seq<PendingView>, id: u128) -> Option<int> {
    if exists|i: int| is_first_async(pending, id, i) {
        Some(choose|i: int| is_first_async(pending, id, i))
    } else {
        None
    }
}

/// Whether `i` is the first suspended transaction with the identifier `id`.
pub open spec fn is_first_async(pending: Seq<PendingView>, id: u128, i: int) -> bool {
    &&& 0 <= i < pending.len()
    &&& pending[i].id == id
    &&& forall|j: int| 0 <= j < i ==> (#[trigger] pending[j]).id != id
}

impl ActiveTransactions {
    /// The log of a document that has seen `last_sequence_num` transactions
    /// of the sequencer and holds no work of its own.
    pub fn new(last_sequence_num: u64) -> (r: Self)
        ensures
            r@ == LogView::new(last_sequence_num),
            r@.wf(),
    {
        let r = ActiveTransactions {
            last_sequence_num,
            unsaved_transactions: Vec::new(),
            out_of_order_transactions: Vec::new(),
            async_transactions: Vec::new(),
            last_get_transactions_time: None,
        };
        assert(r@.unsaved_transactions =~= Seq::empty());
        assert(r@.out_of_order_transactions =~= Seq::empty());
        assert(r@.async_transactions =~= Seq::empty());
        r
    }

    /// Where the unsaved transaction with the identifier `id` stands, and
    /// the transaction itself.
    pub fn find_unsaved_transaction(&self, id: u128) -> (r: Option<(usize, &UnsavedTransaction)>)
        ensures
            match r {
                Some((i, u)) => unsaved_index(self@.unsaved_transactions, id) == Some(i as int)
                    && i < self.unsaved_transactions@.len() && *u
                    == self.unsaved_transactions@[i as int],
                None => unsaved_index(self@.unsaved_transactions, id) is None,
            },
    {
        let mut i: usize = 0;
        while i < self.unsaved_transactions.len()
            invariant
                i <= self.unsaved_transactions.len(),
                forall|j: int| 0 <= j < i ==> (#[trigger] self@.unsaved_transactions[j]).id != id,
            decreases self.unsaved_transactions.len() - i,
        {
            if self.unsaved_transactions[i].forward.id == id {
                proof {
                    let k = choose|k: int| is_first_unsaved(self@.unsaved_transactions, id, k);
                    assert(is_first_unsaved(self@.unsaved_transactions, id, i as int));
                    if k < i {
                        assert(self@.unsaved_transactions[k].id != id);
                    } else if i < k {
                        assert(self@.unsaved_transactions[i as int].id != id);
                    }
                }
                return Some((i, &self.unsaved_transactions[i]));
            }
            i += 1;
        }
        None
    }

    /// Where the suspended transaction with the identifier `id` stands.
    pub fn find_async_transaction(&self, id: u128) -> (r: Option<usize>)
        ensures
            match r {
                Some(i) => async_index(self@.async_transactions, id) == Some(i as int) && i
                    < self.async_transactions@.len(),
                None => async_index(self@.async_transactions, id) is None,
            },
    {
        let mut i: usize = 0;
        while i < self.async_transactions.len()
            invariant
                i <= self.async_transactions.len(),
                forall|j: int| 0 <= j < i ==> (#[trigger] self@.async_transactions[j]).id != id,
            decreases self.async_transactions.len() - i,
        {
            if self.async_transactions[i].id == id {
                proof {
                    let k = choose|k: int| is_first_async(self@.async_transactions, id, k);
                    assert(is_first_async(self@.async_transactions, id, i as int));
                    if k < i {
                        assert(self@.async_transactions[k].id != id);
                    } else if i < k {
                        assert(self@.async_transactions[i as int].id != id);
                    }
                }
                return Some(i);
            }
            i += 1;
        }
        None
    }

    /// The transactions that wait for the result of a computation.
    pub fn async_transactions(&self) -> (r: &[PendingTransaction])
        ensures
            r@ == self.async_transactions@,
    {
        self.async_transactions.as_slice()
    }
}

} // verus!
