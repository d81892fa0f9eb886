//! What a transaction changed, as far as its caller has to know.

use crate::controller::operation::Operation;
use crate::id_set::SheetIdSet;
use crate::position::SheetId;
use vstd::prelude::*;

verus! {

/// A copy of `ops`.
pub fn clone_operations(ops: &Vec<Operation>) -> (r: Vec<Operation>)
    ensures
        r@ == ops@,
{
    let r = ops.clone();
    assert(r@ =~= ops@);
    r
}

/// A copy of `text`.
pub fn clone_text(text: &Option<String>) -> (r: Option<String>)
    ensures
        r == *text,
{
    match text {
        Some(s) => Some(s.clone()),
        None => None,
    }
}

/// The content of a [`TransactionSummary`].
pub struct SummaryView {
    pub cell_sheets_modified: Set<SheetId>,
    pub code_cells_modified: Set<SheetId>,
    pub html: Set<SheetId>,
    pub generate_thumbnail: bool,
    pub save: bool,
    pub skipped_operations: bool,
    pub request_transactions: Option<u64>,
    pub transaction_id: Option<Seq<char>>,
    pub operations: Option<Seq<Operation>>,
    pub cursor: Option<String>,
}

impl SummaryView {
    /// The summary of a transaction that has done nothing.
    pub open spec fn empty() -> SummaryView {
        SummaryView {
            cell_sheets_modified: Set::empty(),
            code_cells_modified: Set::empty(),
            html: Set::empty(),
            generate_thumbnail: false,
            save: false,
            skipped_operations: false,
            request_transactions: None,
            transaction_id: None,
            operations: None,
            cursor: None,
        }
    }

    /// `self` with the changes of `other` added: the sets are united and a
    /// flag is set if either has it set. What identifies the transaction
    /// (identifier, operations, cursor, request) stays that of `self`.
    pub open spec fn merge(self, other: SummaryView) -> SummaryView {
        SummaryView {
            cell_sheets_modified: self.cell_sheets_modified.union(other.cell_sheets_modified),
            code_cells_modified: self.code_cells_modified.union(other.code_cells_modified),
            html: self.html.union(other.html),
            generate_thumbnail: self.generate_thumbnail || other.generate_thumbnail,
            save: self.save || other.save,
            skipped_operations: self.skipped_operations || other.skipped_operations,
            ..self
        }
    }

    /// The summary after the primitive edit `op` was carried out.
    pub open spec fn after(self, op: Operation) -> SummaryView {
        match op {
            Operation::SetCellValue { sheet_pos, value } => SummaryView {
                cell_sheets_modified: self.cell_sheets_modified.insert(sheet_pos.sheet_id),
                html: if value is Html {
                    self.html.insert(sheet_pos.sheet_id)
                } else {
                    self.html
                },
                generate_thumbnail: true,
                save: true,
                ..self
            },
            Operation::SetCodeRun { sheet_pos, code_run } => SummaryView {
                code_cells_modified: self.code_cells_modified.insert(sheet_pos.sheet_id),
                generate_thumbnail: true,
                save: true,
                ..self
            },
            Operation::SetOutputSize { sheet_pos, output_size } => SummaryView {
                html: self.html.insert(sheet_pos.sheet_id),
                save: true,
                ..self
            },
            _ => self,
        }
    }

    /// The summary after an edit was skipped because it could not be
    /// carried out.
    pub open spec fn skipped(self) -> SummaryView {
        SummaryView { skipped_operations: true, ..self }
    }
}

/// What a transaction changed: which sheets need redrawing, whether the
/// thumbnail and the saved file are out of date, and what has to be sent to
/// the sequencer.
#[derive(Debug)]
pub struct TransactionSummary {
    /// Sheets on which a cell value changed.
    pub cell_sheets_modified: SheetIdSet,
    /// Sheets on which the run of a code cell changed.
    pub code_cells_modified: SheetIdSet,
    /// Sheets on which an HTML cell or its display size changed.
    pub html: SheetIdSet,
    pub generate_thumbnail: bool,
    pub save: bool,
    /// Set when an edit could not be carried out and was skipped.
    pub skipped_operations: bool,
    /// The sequence number from which the sequencer is asked to send its
    /// transactions again.
    pub request_transactions: Option<u64>,
    /// The identifier of the transaction, where it has to be sent on.
    pub transaction_id: Option<String>,
    /// The edits to send to the sequencer.
    pub operations: Option<Vec<Operation>>,
    pub cursor: Option<String>,
}

impl View for TransactionSummary {
    type V = SummaryView;

    open spec fn view(&self) -> SummaryView {
        SummaryView {
            cell_sheets_modified: self.cell_sheets_modified@,
            code_cells_modified: self.code_cells_modified@,
            html: self.html@,
            generate_thumbnail: self.generate_thumbnail,
            save: self.save,
            skipped_operations: self.skipped_operations,
            request_transactions: self.request_transactions,
            transaction_id: match self.transaction_id {
                Some(text) => Some(text@),
                None => None,
            },
            operations: match self.operations {
                Some(ops) => Some(ops@),
                None => None,
            },
            cursor: self.cursor,
        }
    }
}

impl Default for TransactionSummary {
    fn default() -> (r: Self)
        ensures
            r@ == SummaryView::empty(),
    {
        TransactionSummary {
            cell_sheets_modified: SheetIdSet::new(),
            code_cells_modified: SheetIdSet::new(),
            html: SheetIdSet::new(),
            generate_thumbnail: false,
            save: false,
            skipped_operations: false,
            request_transactions: None,
            transaction_id: None,
            operations: None,
            cursor: None,
        }
    }
}

impl Clone for TransactionSummary {
    fn clone(&self) -> (r: Self)
        ensures
            r@ == self@,
    {
        TransactionSummary {
            cell_sheets_modified: self.cell_sheets_modified.clone(),
            code_cells_modified: self.code_cells_modified.clone(),
            html: self.html.clone(),
            generate_thumbnail: self.generate_thumbnail,
            save: self.save,
            skipped_operations: self.skipped_operations,
            request_transactions: self.request_transactions,
            transaction_id: clone_text(&self.transaction_id),
            operations: match &self.operations {
                Some(ops) => Some(clone_operations(ops)),
                None => None,
            },
            cursor: clone_text(&self.cursor),
        }
    }
}

impl TransactionSummary {
    /// Adds the changes of `other` to `self`.
    pub fn merge(&mut self, other: &TransactionSummary)
        ensures
            final(self)@ == old(self)@.merge(other@),
    {
        self.cell_sheets_modified.extend(&other.cell_sheets_modified);
        self.code_cells_modified.extend(&other.code_cells_modified);
        self.html.extend(&other.html);
        self.generate_thumbnail = self.generate_thumbnail || other.generate_thumbnail;
        self.save = self.save || other.save;
        self.skipped_operations = self.skipped_operations || other.skipped_operations;
    }

    /// Records that the primitive edit `op` was carried out.
    pub fn note(&mut self, op: &Operation)
        ensures
            final(self)@ == old(self)@.after(*op),
    {
        match op {
            Operation::SetCellValue { sheet_pos, value } => {
                self.cell_sheets_modified.insert(sheet_pos.sheet_id);
                if value.is_html() {
                    self.html.insert(sheet_pos.sheet_id);
                }
                self.generate_thumbnail = true;
                self.save = true;
            },
            Operation::SetCodeRun { sheet_pos, .. } => {
                self.code_cells_modified.insert(sheet_pos.sheet_id);
                self.generate_thumbnail = true;
                self.save = true;
            },
            Operation::SetOutputSize { sheet_pos, .. } => {
                self.html.insert(sheet_pos.sheet_id);
                self.save = true;
            },
            _ => {},
        }
    }

    /// Forgets everything.
    pub fn clear(&mut self)
        ensures
            final(self)@ == SummaryView::empty(),
    {
        *self = TransactionSummary::default();
    }
}

} // verus!
