//! The controller as a host in another language sees it.

use crate::controller::grid_controller::{ControllerView, GridController};
use crate::grid::sheet::SheetView;
use crate::position::SheetId;
use crate::controller::layers::layered;
use crate::controller::undo_records::stacks_primitive;
use vstd::prelude::*;

verus! {

impl GridController {
    /// A controller to try things out on: one empty sheet.
    pub fn js_test() -> (r: GridController)
        ensures
            exists|id: u128|
                r@ == #[trigger] ControllerView::from_grid(
                    seq![SheetView::empty(SheetId { id })],
                    0,
                ),
            r.wf(),
            layered(r@.grid, r@.log.unsaved_transactions),
            stacks_primitive(r@),
    {
        GridController::test()
    }

    /// Whether there is a transaction to undo.
    pub fn js_has_undo(&self) -> (r: bool)
        ensures
            r == (self@.undo_stack.len() > 0),
    {
        self.has_undo()
    }

    /// Whether there is a transaction to redo.
    pub fn js_has_redo(&self) -> (r: bool)
        ensures
            r == (self@.redo_stack.len() > 0),
    {
        self.has_redo()
    }
}

} // verus!
