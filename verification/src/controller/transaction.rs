//! Transactions as the log keeps them and as the sequencer sends them.

use crate::controller::operation::Operation;
use crate::controller::transaction_summary::{clone_operations, clone_text};
use vstd::prelude::*;

verus! {

/// Where a transaction comes from. It decides what is kept of a finished
/// transaction, not how its edits are carried out.
#[derive(Debug, PartialEq, Eq, Structural, Hash)]
pub enum TransactionType {
    Unset,
    /// An edit the user made here.
    User,
    Undo,
    Redo,
    /// A transaction that the sequencer sent.
    Multiplayer,
    /// A transaction of the sequencer whose summary is kept while local
    /// work is taken back.
    MultiplayerKeepSummary,
}

impl Clone for TransactionType {
    fn clone(&self) -> (r: Self)
        ensures
            r == *self,
    {
        match self {
            TransactionType::Unset => TransactionType::Unset,
            TransactionType::User => TransactionType::User,
            TransactionType::Undo => TransactionType::Undo,
            TransactionType::Redo => TransactionType::Redo,
            TransactionType::Multiplayer => TransactionType::Multiplayer,
            TransactionType::MultiplayerKeepSummary => TransactionType::MultiplayerKeepSummary,
        }
    }
}

impl Copy for TransactionType {

}

impl Default for TransactionType {
    fn default() -> (r: Self)
        ensures
            r == TransactionType::Unset,
    {
        TransactionType::Unset
    }
}

impl TransactionType {
    /// Whether a transaction of this type was made here, so that it has to
    /// be sent to the sequencer and kept until it is acknowledged.
    pub open spec fn spec_is_local(&self) -> bool {
        *self === TransactionType::User || *self === TransactionType::Undo || *self
            === TransactionType::Redo
    }

    #[verifier::when_used_as_spec(spec_is_local)]
    pub fn is_local(&self) -> (r: bool)
        ensures
            r == self.spec_is_local(),
    {
        match self {
            TransactionType::User => true,
            TransactionType::Undo => true,
            TransactionType::Redo => true,
            _ => false,
        }
    }
}

/// The content of a [`Transaction`].
pub struct TransactionView {
    pub id: u128,
    pub sequence_num: Option<u64>,
    pub operations: Seq<Operation>,
    pub cursor: Option<String>,
}

/// A list of edits with the identifier of the transaction that made them.
#[derive(Debug)]
pub struct Transaction {
    pub id: u128,
    /// The place that the sequencer gave the transaction, once it has one.
    pub sequence_num: Option<u64>,
    pub operations: Vec<Operation>,
    pub cursor: Option<String>,
}

impl View for Transaction {
    type V = TransactionView;

    open spec fn view(&self) -> TransactionView {
        TransactionView {
            id: self.id,
            sequence_num: self.sequence_num,
            operations: self.operations@,
            cursor: self.cursor,
        }
    }
}

impl Clone for Transaction {
    fn clone(&self) -> (r: Self)
        ensures
            r@ == self@,
    {
        Transaction {
            id: self.id,
            sequence_num: self.sequence_num,
            operations: clone_operations(&self.operations),
            cursor: clone_text(&self.cursor),
        }
    }
}

/// A transaction as the sequencer sends it.
#[derive(Debug)]
pub struct TransactionServer {
    pub file_id: u128,
    pub id: u128,
    pub sequence_num: u64,
    pub operations: Vec<Operation>,
}

/// The content of an [`UnsavedTransaction`].
pub struct UnsavedView {
    pub id: u128,
    pub forward: Seq<Operation>,
    pub reverse: Seq<Operation>,
}

/// A transaction made here that the sequencer has not acknowledged yet:
/// the edits that were carried out, and the edits that take them back.
#[derive(Debug)]
pub struct UnsavedTransaction {
    pub forward: Transaction,
    pub reverse: Transaction,
}

impl View for UnsavedTransaction {
    type V = UnsavedView;

    open spec fn view(&self) -> UnsavedView {
        UnsavedView {
            id: self.forward.id,
            forward: self.forward.operations@,
            reverse: self.reverse.operations@,
        }
    }
}

} // verus!
