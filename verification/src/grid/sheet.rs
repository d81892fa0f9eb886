//! One sheet: its cells, the runs of its code cells, and display sizes.

use crate::pos_map::{has_key, lemma_put, lemma_rank_splits, lookup, put, rank, sorted, PosMap};
use crate::position::{Pos, Rect, SheetId};
use crate::values::{CellValue, CodeRun, OutputSize};
use vstd::prelude::*;

verus! {

/// What a sheet holds. Each sequence is sorted by position and holds a
/// position at most once; `cells` holds no blank value.
pub struct SheetView {
    pub id: SheetId,
    pub cells: Seq<(Pos, CellValue)>,
    pub code_runs: Seq<(Pos, CodeRun)>,
    pub output_sizes: Seq<(Pos, OutputSize)>,
}

impl SheetView {
    /// A sheet that holds nothing.
    pub open spec fn empty(id: SheetId) -> SheetView {
        SheetView { id, cells: Seq::empty(), code_runs: Seq::empty(), output_sizes: Seq::empty() }
    }

    /// The sheet keeps its cells in order and stores no blank value.
    pub open spec fn wf(self) -> bool {
        &&& sorted(self.cells)
        &&& sorted(self.code_runs)
        &&& sorted(self.output_sizes)
        &&& forall|i: int| 0 <= i < self.cells.len() ==> !((#[trigger] self.cells[i]).1 is Blank)
    }

    /// The value stored at `pos`; blank where nothing is stored.
    pub open spec fn cell(self, pos: Pos) -> CellValue {
        CellValue::or_blank(lookup(self.cells, pos))
    }

    /// The first code run from `i` on that covers `pos`. A run with a spill
    /// error covers its own cell only.
    pub open spec fn covering_from(self, pos: Pos, i: int) -> Option<int>
        decreases self.code_runs.len() - i,
    {
        if i < 0 || i >= self.code_runs.len() {
            None
        } else if self.code_runs[i].1.spec_output_rect(self.code_runs[i].0, false).spec_contains(
            pos,
        ) {
            Some(i)
        } else {
            self.covering_from(pos, i + 1)
        }
    }

    /// The value that the code run covering `pos` puts there.
    pub open spec fn code_value(self, pos: Pos) -> Option<CellValue> {
        match self.covering_from(pos, 0) {
            Some(i) => self.code_runs[i].1.spec_get_output_value(
                (pos.x - self.code_runs[i].0.x) as u32,
                (pos.y - self.code_runs[i].0.y) as u32,
            ),
            None => None,
        }
    }

    /// What the cell at `pos` shows: the value stored there, or, where
    /// nothing or a code cell is stored, what a code run puts there.
    pub open spec fn display(self, pos: Pos) -> Option<CellValue> {
        match lookup(self.cells, pos) {
            Some(v) => if v is Code {
                self.code_value(pos)
            } else {
                Some(v)
            },
            None => self.code_value(pos),
        }
    }

    /// Whether a cell of `rect` other than `skip` holds a value.
    pub open spec fn has_cell_value_in_rect(self, rect: Rect, skip: Option<Pos>) -> bool {
        exists|i: int|
            0 <= i < self.cells.len() && Some((#[trigger] self.cells[i]).0) != skip
                && rect.spec_contains(self.cells[i].0)
    }

    /// Whether a code cell other than the one at `skip` has its own cell in `rect`.
    pub open spec fn has_code_cell_anchor_in_rect(self, rect: Rect, skip: Pos) -> bool {
        exists|i: int|
            0 <= i < self.code_runs.len() && (#[trigger] self.code_runs[i]).0 != skip
                && rect.spec_contains(self.code_runs[i].0)
    }

    /// Whether the output of a code cell other than the one at `skip`
    /// covers a cell of `rect`.
    pub open spec fn has_code_cell_in_rect(self, rect: Rect, skip: Pos) -> bool {
        exists|i: int|
            0 <= i < self.code_runs.len() && (#[trigger] self.code_runs[i]).0 != skip
                && rect.spec_intersects(
                self.code_runs[i].1.spec_output_rect(self.code_runs[i].0, false),
            )
    }

    /// Whether the output of the code run at `i` cannot be laid out: a cell
    /// that it asks for holds a value, or belongs to another code cell.
    pub open spec fn blocked(self, i: int) -> bool {
        let (pos, run) = self.code_runs[i];
        let rect = run.spec_output_rect(pos, true);
        self.has_cell_value_in_rect(rect, Some(pos)) || self.has_code_cell_anchor_in_rect(
            rect,
            pos,
        ) || self.has_code_cell_in_rect(rect, pos)
    }

    /// A cell that holds a value other than the source of a code cell
    /// shows that value.
    pub proof fn lemma_shows(self, pos: Pos)
        requires
            !(self.cell(pos) is Blank),
            !(self.cell(pos) is Code),
        ensures
            self.display(pos) == Some(self.cell(pos)),
    {
    }

    /// The sheet with `value` stored at `pos`; a blank value empties the cell.
    pub open spec fn with_cell(self, pos: Pos, value: CellValue) -> SheetView {
        SheetView { cells: put(self.cells, pos, value.stored()), ..self }
    }

    /// The sheet with the code run at `pos` set to `run`, or removed.
    pub open spec fn with_code_run(self, pos: Pos, run: Option<CodeRun>) -> SheetView {
        SheetView { code_runs: put(self.code_runs, pos, run), ..self }
    }

    /// The sheet with the display size at `pos` set to `size`, or cleared.
    pub open spec fn with_output_size(self, pos: Pos, size: Option<OutputSize>) -> SheetView {
        SheetView { output_sizes: put(self.output_sizes, pos, size), ..self }
    }

    /// Storing a value keeps the sheet in order and changes one cell only.
    pub proof fn lemma_with_cell(self, pos: Pos, value: CellValue)
        requires
            self.wf(),
        ensures
            self.with_cell(pos, value).wf(),
            self.with_cell(pos, value).cell(pos) == value,
            forall|q: Pos| q != pos ==> #[trigger] self.with_cell(pos, value).cell(q) == self.cell(q),
    {
        lemma_put(self.cells, pos, value.stored());
        lemma_rank_splits(self.cells, pos);
        let t = put(self.cells, pos, value.stored());
        let r = rank(self.cells, pos);
        assert forall|i: int| 0 <= i < t.len() implies !((#[trigger] t[i]).1 is Blank) by {
            if i < r {
                assert(t[i] == self.cells[i]);
            } else if value.stored() is Some && i == r {
            } else {
                let skip: int = if has_key(self.cells, pos) {
                    1
                } else {
                    0
                };
                let add: int = if value.stored() is Some {
                    1
                } else {
                    0
                };
                assert(t[i] == self.cells[i - add + skip]);
            }
        }
    }
}

/// One sheet of a grid.
pub struct Sheet {
    id: SheetId,
    cells: PosMap<CellValue>,
    code_runs: PosMap<CodeRun>,
    output_sizes: PosMap<OutputSize>,
    bounds: GridBounds,
}

/// The smallest rectangle that holds every cell with a value.
#[derive(Debug, PartialEq, Eq, Structural)]
pub enum GridBounds {
    Empty,
    NonEmpty(Rect),
}

impl Clone for GridBounds {
    fn clone(&self) -> (r: Self)
        ensures
            r == *self,
    {
        match self {
            GridBounds::Empty => GridBounds::Empty,
            GridBounds::NonEmpty(rect) => GridBounds::NonEmpty(*rect),
        }
    }
}

impl Copy for GridBounds {

}

/// Whether `bounds` is the smallest rectangle around the positions of `cells`.
pub open spec fn bounds_of(cells: Seq<(Pos, CellValue)>, bounds: GridBounds) -> bool {
    match bounds {
        GridBounds::Empty => cells.len() == 0,
        GridBounds::NonEmpty(rect) => {
            &&& forall|i: int| 0 <= i < cells.len() ==> rect.spec_contains((#[trigger] cells[i]).0)
            &&& exists|i: int| 0 <= i < cells.len() && (#[trigger] cells[i]).0.x == rect.min.x
            &&& exists|i: int| 0 <= i < cells.len() && (#[trigger] cells[i]).0.x == rect.max.x
            &&& exists|i: int| 0 <= i < cells.len() && (#[trigger] cells[i]).0.y == rect.min.y
            &&& exists|i: int| 0 <= i < cells.len() && (#[trigger] cells[i]).0.y == rect.max.y
        },
    }
}

impl View for Sheet {
    type V = SheetView;

    closed spec fn view(&self) -> SheetView {
        SheetView {
            id: self.id,
            cells: self.cells@,
            code_runs: self.code_runs@,
            output_sizes: self.output_sizes@,
        }
    }
}

impl Sheet {
    pub open spec fn wf(&self) -> bool {
        self@.wf()
    }

    /// An empty sheet.
    pub fn new(id: SheetId) -> (r: Self)
        ensures
            r@ == SheetView::empty(id),
            r.wf(),
    {
        Sheet {
            id,
            cells: PosMap::new(),
            code_runs: PosMap::new(),
            output_sizes: PosMap::new(),
            bounds: GridBounds::Empty,
        }
    }

    /// The identifier of the sheet.
    pub fn id(&self) -> (r: SheetId)
        ensures
            r == self@.id,
    {
        self.id
    }

    /// The value stored at `pos`, without regard to code cells that cover it.
    pub fn get_cell_value_only(&self, pos: Pos) -> (r: Option<CellValue>)
        requires
            self.wf(),
        ensures
            r == lookup(self@.cells, pos),
    {
        match self.cells.get(pos) {
            Some(v) => Some(v.clone()),
            None => None,
        }
    }

    /// Stores `value` at `pos`, or empties the cell if `value` is blank.
    /// Returns what the cell held, blank if it was empty.
    pub fn set_cell_value(&mut self, pos: Pos, value: CellValue) -> (prev: CellValue)
        requires
            old(self).wf(),
        ensures
            final(self).wf(),
            final(self)@ == old(self)@.with_cell(pos, value),
            prev == old(self)@.cell(pos),
    {
        let ghost before = self@;
        let stored = if value.is_blank() {
            None
        } else {
            Some(value)
        };
        let prev = self.cells.set(pos, stored);
        proof {
            before.lemma_with_cell(pos, value);
        }
        match prev {
            Some(v) => v,
            None => CellValue::Blank,
        }
    }

    /// Whether the sheet is in order, as it always is unless it was built
    /// by other means than the functions of this type.
    pub fn is_valid(&self) -> (r: bool)
        ensures
            r == self.wf(),
    {
        if !(self.cells.is_sorted() && self.code_runs.is_sorted() && self.output_sizes.is_sorted()) {
            return false;
        }
        let n = self.cells.len();
        let mut i: usize = 0;
        while i < n
            invariant
                i <= n,
                n == self@.cells.len(),
                forall|k: int| 0 <= k < i ==> !((#[trigger] self@.cells[k]).1 is Blank),
            decreases n - i,
        {
            if self.cells.get_index(i).unwrap().1.is_blank() {
                return false;
            }
            i += 1;
        }
        true
    }

    /// The bounds as they were last calculated.
    pub closed spec fn spec_bounds(&self) -> GridBounds {
        self.bounds
    }

    /// The bounds as they were last calculated. After edits they are out
    /// of date until `recalculate_bounds` has run.
    #[verifier::when_used_as_spec(spec_bounds)]
    pub fn bounds(&self) -> (r: GridBounds)
        ensures
            r == self.spec_bounds(),
    {
        self.bounds
    }

    /// Calculates the bounds anew from the cells that hold a value.
    pub fn recalculate_bounds(&mut self)
        ensures
            final(self)@ == old(self)@,
            bounds_of(final(self)@.cells, final(self).spec_bounds()),
    {
        let n = self.cells.len();
        if n == 0 {
            self.bounds = GridBounds::Empty;
            return ;
        }
        let first = self.cells.get_index(0).unwrap().0;
        let mut rect = Rect { min: first, max: first };
        let mut i: usize = 1;
        while i < n
            invariant
                1 <= i <= n,
                n == self.cells@.len(),
                self@ == old(self)@,
                forall|k: int| 0 <= k < i ==> rect.spec_contains((#[trigger] self.cells@[k]).0),
                exists|k: int| 0 <= k < i && (#[trigger] self.cells@[k]).0.x == rect.min.x,
                exists|k: int| 0 <= k < i && (#[trigger] self.cells@[k]).0.x == rect.max.x,
                exists|k: int| 0 <= k < i && (#[trigger] self.cells@[k]).0.y == rect.min.y,
                exists|k: int| 0 <= k < i && (#[trigger] self.cells@[k]).0.y == rect.max.y,
            decreases n - i,
        {
            let pos = self.cells.get_index(i).unwrap().0;
            if pos.x < rect.min.x {
                rect.min.x = pos.x;
            }
            if pos.x > rect.max.x {
                rect.max.x = pos.x;
            }
            if pos.y < rect.min.y {
                rect.min.y = pos.y;
            }
            if pos.y > rect.max.y {
                rect.max.y = pos.y;
            }
            i += 1;
        }
        self.bounds = GridBounds::NonEmpty(rect);
    }

    /// Whether a cell of `rect` other than `skip` holds a value.
    pub fn has_cell_value_in_rect(&self, rect: &Rect, skip: Option<Pos>) -> (r: bool)
        ensures
            r == self@.has_cell_value_in_rect(*rect, skip),
    {
        let n = self.cells.len();
        let mut i: usize = 0;
        while i < n
            invariant
                i <= n,
                n == self@.cells.len(),
                forall|k: int|
                    0 <= k < i ==> !(Some((#[trigger] self@.cells[k]).0) != skip
                        && rect.spec_contains(self@.cells[k].0)),
            decreases n - i,
        {
            let pos = self.cells.get_index(i).unwrap().0;
            let skipped = match skip {
                Some(p) => p == pos,
                None => false,
            };
            if !skipped && rect.contains(pos) {
                return true;
            }
            i += 1;
        }
        false
    }

    /// Whether a code cell other than the one at `skip` has its own cell in `rect`.
    pub fn has_code_cell_anchor_in_rect(&self, rect: &Rect, skip: Pos) -> (r: bool)
        ensures
            r == self@.has_code_cell_anchor_in_rect(*rect, skip),
    {
        let n = self.code_runs.len();
        let mut i: usize = 0;
        while i < n
            invariant
                i <= n,
                n == self@.code_runs.len(),
                forall|k: int|
                    0 <= k < i ==> !((#[trigger] self@.code_runs[k]).0 != skip
                        && rect.spec_contains(self@.code_runs[k].0)),
            decreases n - i,
        {
            let pos = self.code_runs.get_index(i).unwrap().0;
            if pos != skip && rect.contains(pos) {
                return true;
            }
            i += 1;
        }
        false
    }

    /// Whether the output of a code cell other than the one at `skip`
    /// covers a cell of `rect`.
    pub fn has_code_cell_in_rect(&self, rect: &Rect, skip: Pos) -> (r: bool)
        ensures
            r == self@.has_code_cell_in_rect(*rect, skip),
    {
        let n = self.code_runs.len();
        let mut i: usize = 0;
        while i < n
            invariant
                i <= n,
                n == self@.code_runs.len(),
                forall|k: int|
                    0 <= k < i ==> !((#[trigger] self@.code_runs[k]).0 != skip
                        && rect.spec_intersects(
                        self@.code_runs[k].1.spec_output_rect(self@.code_runs[k].0, false),
                    )),
            decreases n - i,
        {
            let (pos, run) = self.code_runs.get_index(i).unwrap();
            if pos != skip && rect.intersects(run.output_rect(pos, false)) {
                return true;
            }
            i += 1;
        }
        false
    }

    /// The number of cells that hold a value.
    pub fn cells_len(&self) -> (r: usize)
        ensures
            r == self@.cells.len(),
    {
        self.cells.len()
    }

    /// The stored value at `index` in position order, with its position.
    pub fn cell_at_index(&self, index: usize) -> (r: Option<(Pos, &CellValue)>)
        ensures
            index < self@.cells.len() ==> r == Some(
                (self@.cells[index as int].0, &self@.cells[index as int].1),
            ),
            index >= self@.cells.len() ==> r is None,
    {
        self.cells.get_index(index)
    }

    /// The run of the code cell at `pos`.
    pub fn get_code_cell(&self, pos: Pos) -> (r: Option<&CodeRun>)
        requires
            self.wf(),
        ensures
            match r {
                Some(run) => lookup(self@.code_runs, pos) == Some(*run),
                None => lookup(self@.code_runs, pos) is None,
            },
    {
        self.code_runs.get(pos)
    }

    /// Whether the cell at `pos` is a code cell with a run.
    pub fn has_code_cell(&self, pos: Pos) -> (r: bool)
        requires
            self.wf(),
        ensures
            r == has_key(self@.code_runs, pos),
    {
        self.code_runs.contains(pos)
    }

    /// The number of code runs on the sheet.
    pub fn code_runs_len(&self) -> (r: usize)
        ensures
            r == self@.code_runs.len(),
    {
        self.code_runs.len()
    }

    /// The code run at `index` in position order, with its position.
    pub fn code_run_at_index(&self, index: usize) -> (r: Option<(Pos, &CodeRun)>)
        ensures
            index < self@.code_runs.len() ==> r == Some(
                (self@.code_runs[index as int].0, &self@.code_runs[index as int].1),
            ),
            index >= self@.code_runs.len() ==> r is None,
    {
        self.code_runs.get_index(index)
    }

    /// Stores `run` as the run of the code cell at `pos`, or removes the run
    /// that is there. Returns the run that was there.
    pub fn set_code_cell_value(&mut self, pos: Pos, run: Option<CodeRun>) -> (prev: Option<
        CodeRun,
    >)
        requires
            old(self).wf(),
        ensures
            final(self).wf(),
            final(self)@ == old(self)@.with_code_run(pos, run),
            prev == lookup(old(self)@.code_runs, pos),
    {
        let ghost before = self@;
        let prev = self.code_runs.set(pos, run);
        proof {
            lemma_put(before.code_runs, pos, run);
        }
        prev
    }

    /// The display size set for the cell at `pos`.
    pub fn output_size(&self, pos: Pos) -> (r: Option<OutputSize>)
        requires
            self.wf(),
        ensures
            r == lookup(self@.output_sizes, pos),
    {
        match self.output_sizes.get(pos) {
            Some(v) => Some(*v),
            None => None,
        }
    }

    /// Sets or clears the display size of the cell at `pos`. Returns the
    /// size that was set.
    pub fn set_output_size(&mut self, pos: Pos, size: Option<OutputSize>) -> (prev: Option<
        OutputSize,
    >)
        requires
            old(self).wf(),
        ensures
            final(self).wf(),
            final(self)@ == old(self)@.with_output_size(pos, size),
            prev == lookup(old(self)@.output_sizes, pos),
    {
        let ghost before = self@;
        let prev = self.output_sizes.set(pos, size);
        proof {
            lemma_put(before.output_sizes, pos, size);
        }
        prev
    }

    /// Gives the sheet another identifier; what it holds stays.
    pub fn set_id(&mut self, id: SheetId)
        ensures
            final(self)@ == (SheetView { id, ..old(self)@ }),
    {
        self.id = id;
    }
}

} // verus!
