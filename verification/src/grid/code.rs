//! Code cells of a sheet: what they show and where they are.

use crate::grid::sheet::Sheet;
use crate::pos_map::lookup;
use crate::position::{Pos, Rect, SheetId};
use crate::values::{CellValue, CodeRun};
use vstd::prelude::*;

verus! {

/// Names a cell of some sheet.
#[derive(Debug, PartialEq, Eq, Structural, Hash)]
pub struct CellRef {
    pub sheet: SheetId,
    pub column: i64,
    pub row: i64,
}

impl Clone for CellRef {
    fn clone(&self) -> (r: Self)
        ensures
            r == *self,
    {
        CellRef { sheet: self.sheet, column: self.column, row: self.row }
    }
}

impl Copy for CellRef {

}

impl CellRef {
    /// The position that the reference names.
    pub open spec fn spec_pos(&self) -> Pos {
        Pos { x: self.column, y: self.row }
    }

    #[verifier::when_used_as_spec(spec_pos)]
    pub fn pos(&self) -> (r: Pos)
        ensures
            r == self.spec_pos(),
    {
        Pos { x: self.column, y: self.row }
    }
}

/// The references to the code cells among `runs[0..n]` whose output
/// touches `region`, in sheet order.
pub open spec fn locations_in_region(
    sheet: SheetId,
    runs: Seq<(Pos, CodeRun)>,
    region: Rect,
    n: int,
) -> Seq<CellRef>
    decreases n,
{
    if n <= 0 || n > runs.len() {
        Seq::empty()
    } else {
        let before = locations_in_region(sheet, runs, region, n - 1);
        let (pos, run) = runs[n - 1];
        if run.spec_output_rect(pos, false).spec_intersects(region) {
            before.push(CellRef { sheet, column: pos.x, row: pos.y })
        } else {
            before
        }
    }
}

impl Sheet {
    /// The run of the code cell that `cell_ref` names, if it names a cell
    /// of this sheet.
    pub fn get_code_cell_from_ref(&self, cell_ref: CellRef) -> (r: Option<&CodeRun>)
        requires
            self.wf(),
        ensures
            match r {
                Some(run) => cell_ref.sheet == self@.id && lookup(
                    self@.code_runs,
                    cell_ref.spec_pos(),
                ) == Some(*run),
                None => cell_ref.sheet != self@.id || lookup(
                    self@.code_runs,
                    cell_ref.spec_pos(),
                ) is None,
            },
    {
        if cell_ref.sheet == self.id() {
            self.get_code_cell(cell_ref.pos())
        } else {
            None
        }
    }

    /// The value that a code run puts into the cell at `pos`.
    pub fn get_code_cell_value(&self, pos: Pos) -> (r: Option<CellValue>)
        ensures
            r == self@.code_value(pos),
    {
        let n = self.code_runs_len();
        let mut i: usize = 0;
        while i < n
            invariant
                i <= n,
                n == self@.code_runs.len(),
                self@.covering_from(pos, i as int) == self@.covering_from(pos, 0),
            decreases n - i,
        {
            let (anchor, run) = self.code_run_at_index(i).unwrap();
            let rect = run.output_rect(anchor, false);
            if rect.contains(pos) {
                let (w, h) = run.output_size();
                let dx: i128 = pos.x as i128 - anchor.x as i128;
                let dy: i128 = pos.y as i128 - anchor.y as i128;
                assert(0 <= dx <= 0xffff_ffff && 0 <= dy <= 0xffff_ffff);
                return run.get_output_value(dx as u32, dy as u32);
            }
            i += 1;
        }
        None
    }

    /// What the cell at `pos` shows: the value stored there, or what a
    /// code run puts there.
    pub fn get_cell_value(&self, pos: Pos) -> (r: Option<CellValue>)
        requires
            self.wf(),
        ensures
            r == self@.display(pos),
    {
        match self.get_cell_value_only(pos) {
            Some(v) => {
                if v.is_code() {
                    self.get_code_cell_value(pos)
                } else {
                    Some(v)
                }
            },
            None => self.get_code_cell_value(pos),
        }
    }

    /// References to the code cells whose output touches `region`, in
    /// sheet order.
    pub fn iter_code_cells_locations_in_region(&self, region: Rect) -> (r: Vec<CellRef>)
        ensures
            r@ == locations_in_region(
                self@.id,
                self@.code_runs,
                region,
                self@.code_runs.len() as int,
            ),
    {
        let n = self.code_runs_len();
        let id = self.id();
        let mut found: Vec<CellRef> = Vec::new();
        let mut i: usize = 0;
        while i < n
            invariant
                i <= n,
                n == self@.code_runs.len(),
                id == self@.id,
                found@ == locations_in_region(id, self@.code_runs, region, i as int),
            decreases n - i,
        {
            let (pos, run) = self.code_run_at_index(i).unwrap();
            if run.output_rect(pos, false).intersects(region) {
                found.push(CellRef { sheet: id, column: pos.x, row: pos.y });
            }
            i += 1;
        }
        found
    }

    /// References to all code cells, in sheet order.
    pub fn iter_code_cells_locations(&self) -> (r: Vec<CellRef>)
        ensures
            r@.len() == self@.code_runs.len(),
            forall|i: int|
                0 <= i < r@.len() ==> #[trigger] r@[i] == (CellRef {
                    sheet: self@.id,
                    column: self@.code_runs[i].0.x,
                    row: self@.code_runs[i].0.y,
                }),
    {
        let n = self.code_runs_len();
        let id = self.id();
        let mut found: Vec<CellRef> = Vec::new();
        let mut i: usize = 0;
        while i < n
            invariant
                i <= n,
                n == self@.code_runs.len(),
                id == self@.id,
                found@.len() == i,
                forall|k: int|
                    0 <= k < i ==> #[trigger] found@[k] == (CellRef {
                        sheet: id,
                        column: self@.code_runs[k].0.x,
                        row: self@.code_runs[k].0.y,
                    }),
            decreases n - i,
        {
            let (pos, _) = self.code_run_at_index(i).unwrap();
            found.push(CellRef { sheet: id, column: pos.x, row: pos.y });
            i += 1;
        }
        found
    }

    /// The display size of the HTML cell at `pos`: width and height, both
    /// 0 where none is set.
    pub fn html_output_size(&self, pos: Pos) -> (r: (i64, i64))
        requires
            self.wf(),
        ensures
            r == match lookup(self@.output_sizes, pos) {
                Some(size) => (size.w, size.h),
                None => (0i64, 0i64),
            },
    {
        match self.output_size(pos) {
            Some(size) => (size.w, size.h),
            None => (0, 0),
        }
    }
}

} // verus!
