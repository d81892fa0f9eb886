//! The controller itself: the grid, the log, and the undo and redo stacks.

use crate::controller::transaction::{Transaction, TransactionView};
use crate::controller::transactions::{ActiveTransactions, LogView};
use crate::grid::sheet::{Sheet, SheetView};
use crate::grid::{grid_wf, sheet_index, Grid, GridView};
use crate::outside::new_uuid;
use crate::position::SheetId;
use crate::controller::layers::layered;
use crate::controller::undo_records::stacks_primitive;
use vstd::prelude::*;

verus! {

/// The state of a controller.
pub struct ControllerView {
    pub grid: GridView,
    pub log: LogView,
    /// For each transaction that can be undone, the edits that undo it.
    pub undo_stack: Seq<TransactionView>,
    /// For each undone transaction, the edits that carry it out again.
    pub redo_stack: Seq<TransactionView>,
}

impl ControllerView {
    /// The grid and the log are in order.
    pub open spec fn wf(self) -> bool {
        grid_wf(self.grid) && self.log.wf()
    }

    /// A controller for `grid` that has seen `last_sequence_num`
    /// transactions of the sequencer.
    pub open spec fn from_grid(grid: GridView, last_sequence_num: u64) -> ControllerView {
        ControllerView {
            grid,
            log: LogView::new(last_sequence_num),
            undo_stack: Seq::empty(),
            redo_stack: Seq::empty(),
        }
    }
}

/// Holds a grid and carries out every change to it.
pub struct GridController {
    pub grid: Grid,
    pub transactions: ActiveTransactions,
    pub undo_stack: Vec<Transaction>,
    pub redo_stack: Vec<Transaction>,
}

impl View for GridController {
    type V = ControllerView;

    open spec fn view(&self) -> ControllerView {
        ControllerView {
            grid: self.grid@,
            log: self.transactions@,
            undo_stack: self.undo_stack@.map_values(|t: Transaction| t@),
            redo_stack: self.redo_stack@.map_values(|t: Transaction| t@),
        }
    }
}

impl GridController {
    pub open spec fn wf(&self) -> bool {
        self@.wf()
    }

    /// A controller for `grid` that has seen `last_sequence_num`
    /// transactions of the sequencer.
    pub fn from_grid(grid: Grid, last_sequence_num: u64) -> (r: Self)
        requires
            grid.wf(),
        ensures
            r@ == ControllerView::from_grid(grid@, last_sequence_num),
            r.wf(),
            layered(r@.grid, r@.log.unsaved_transactions),
            stacks_primitive(r@),
    {
        let r = GridController {
            grid,
            transactions: ActiveTransactions::new(last_sequence_num),
            undo_stack: Vec::new(),
            redo_stack: Vec::new(),
        };
        assert(r@.undo_stack =~= Seq::empty());
        assert(r@.redo_stack =~= Seq::empty());
        r
    }

    /// A controller for a grid of one empty sheet with the identifier
    /// `sheet_id`.
    pub fn with_sheet(sheet_id: SheetId) -> (r: Self)
        ensures
            r@ == ControllerView::from_grid(seq![SheetView::empty(sheet_id)], 0),
            r.wf(),
            layered(r@.grid, r@.log.unsaved_transactions),
            stacks_primitive(r@),
    {
        GridController::from_grid(Grid::with_sheet(sheet_id), 0)
    }

    /// A controller for a grid of one empty sheet with a fresh identifier.
    pub fn new() -> (r: Self)
        ensures
            exists|id: u128|
                r@ == #[trigger] ControllerView::from_grid(
                    seq![SheetView::empty(SheetId { id })],
                    0,
                ),
            r.wf(),
            layered(r@.grid, r@.log.unsaved_transactions),
            stacks_primitive(r@),
    {
        let id = new_uuid();
        GridController::with_sheet(SheetId { id })
    }

    /// A controller to try things out on: one empty sheet.
    pub fn test() -> (r: Self)
        ensures
            exists|id: u128|
                r@ == #[trigger] ControllerView::from_grid(
                    seq![SheetView::empty(SheetId { id })],
                    0,
                ),
            r.wf(),
            layered(r@.grid, r@.log.unsaved_transactions),
            stacks_primitive(r@),
    {
        GridController::new()
    }

    /// The grid.
    pub fn grid(&self) -> (r: &Grid)
        ensures
            *r == self.grid,
    {
        &self.grid
    }

    /// The grid, to be changed in place.
    pub fn grid_mut(&mut self) -> (r: &mut Grid)
        ensures
            *r == old(self).grid,
            *final(self) == (GridController { grid: *final(r), ..*old(self) }),
    {
        &mut self.grid
    }

    /// The identifiers of the sheets, in order.
    pub fn sheet_ids(&self) -> (r: Vec<SheetId>)
        ensures
            r@ == self@.grid.map_values(|s: SheetView| s.id),
    {
        self.grid.sheet_ids()
    }

    /// The sheet that `sheet_id` names.
    pub fn try_sheet(&self, sheet_id: SheetId) -> (r: Option<&Sheet>)
        ensures
            r == self.grid.spec_try_sheet(sheet_id),
            match r {
                Some(s) => sheet_index(self@.grid, sheet_id) is Some && s@ == self@.grid[sheet_index(
                    self@.grid,
                    sheet_id,
                )->0],
                None => sheet_index(self@.grid, sheet_id) is None,
            },
    {
        self.grid.try_sheet(sheet_id)
    }

    /// Whether there is a transaction to undo.
    pub fn has_undo(&self) -> (r: bool)
        ensures
            r == (self@.undo_stack.len() > 0),
    {
        self.undo_stack.len() > 0
    }

    /// Whether there is a transaction to redo.
    pub fn has_redo(&self) -> (r: bool)
        ensures
            r == (self@.redo_stack.len() > 0),
    {
        self.redo_stack.len() > 0
    }
}

} // verus!
