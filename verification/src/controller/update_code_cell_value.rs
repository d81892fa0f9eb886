//! Storing the run of a code cell together with everything that has to
//! be noted of it: the edit that undoes it, what to redraw, and which
//! cells have to be computed again.

use crate::controller::grid_controller::GridController;
use crate::controller::operation::{applies, apply_op, reverse_of, Operation};
use crate::controller::transaction_summary::{SummaryView, TransactionSummary};
use crate::grid::code::CellRef;
use crate::grid::sheet::Sheet;
use crate::grid::sheet_index;
use crate::outside::{index_set_insert, index_set_items};
use crate::pos_map::lookup;
use crate::position::{Pos, SheetId, SheetPos};
use crate::values::{CodeRun, CodeRunResult, Value};
use indexmap::IndexSet;
use vstd::prelude::*;

verus! {

/// A cell as a set of cells to compute holds it: the identifier of its
/// sheet, its column and its row.
pub type CellKey = (u128, i64, i64);

/// The cell `dx` columns and `dy` rows from `pos`, if the grid reaches
/// that far.
pub open spec fn cell_at(sheet: SheetId, pos: Pos, dx: int, dy: int) -> Seq<CellKey> {
    if pos.x + dx <= i64::MAX && pos.y + dy <= i64::MAX {
        seq![(sheet.id, (pos.x + dx) as i64, (pos.y + dy) as i64)]
    } else {
        Seq::empty()
    }
}

/// The cells of the column `dx` columns from `pos`, from `y0` to `y1`
/// rows down, top to bottom.
pub open spec fn column_cells(sheet: SheetId, pos: Pos, dx: int, y0: int, y1: int) -> Seq<CellKey>
    decreases y1 - y0,
{
    if y0 >= y1 {
        Seq::empty()
    } else {
        column_cells(sheet, pos, dx, y0, y1 - 1) + cell_at(sheet, pos, dx, y1 - 1)
    }
}

/// The cells from `x0` to `x1` columns and from `y0` to `y1` rows from
/// `pos`: column by column, top to bottom in each.
pub open spec fn block_cells(sheet: SheetId, pos: Pos, x0: int, x1: int, y0: int, y1: int) -> Seq<
    CellKey,
>
    decreases x1 - x0,
{
    if x0 >= x1 {
        Seq::empty()
    } else {
        block_cells(sheet, pos, x0, x1 - 1, y0, y1) + column_cells(sheet, pos, x1 - 1, y0, y1)
    }
}

/// The items of a set after `cells` were put in, one after the other: a
/// cell that is in the set already changes nothing.
pub open spec fn inserted(items: Seq<CellKey>, cells: Seq<CellKey>) -> Seq<CellKey>
    decreases cells.len(),
{
    if cells.len() == 0 {
        items
    } else {
        let before = inserted(items, cells.drop_last());
        if before.contains(cells.last()) {
            before
        } else {
            before.push(cells.last())
        }
    }
}

/// The width and height of the output of a code cell that may be missing.
pub open spec fn size_of(run: Option<CodeRun>) -> (u32, u32) {
    match run {
        Some(r) => r.spec_output_size(),
        None => (0u32, 0u32),
    }
}

/// The cells that the output of a code cell at `pos` no longer covers
/// when an output of the size `new` takes the place of one of the size
/// `old`: first the columns that are given up, as far down as the new
/// output goes, then the rows that are given up, as wide as the old
/// output went.
pub open spec fn difference_cells(
    sheet: SheetId,
    pos: Pos,
    old_size: (u32, u32),
    new_size: (u32, u32),
) -> Seq<CellKey> {
    let columns = if old_size.0 > new_size.0 {
        block_cells(sheet, pos, new_size.0 as int, old_size.0 as int, 0, new_size.1 as int)
    } else {
        Seq::empty()
    };
    let rows = if old_size.1 > new_size.1 {
        block_cells(sheet, pos, 0, old_size.0 as int, new_size.1 as int, old_size.1 as int)
    } else {
        Seq::empty()
    };
    columns + rows
}

/// Collects the cells of [`block_cells`].
pub fn collect_block(sheet: SheetId, pos: Pos, x0: u32, x1: u32, y0: u32, y1: u32) -> (r: Vec<
    CellKey,
>)
    ensures
        r@ == block_cells(sheet, pos, x0 as int, x1 as int, y0 as int, y1 as int),
{
    let mut cells: Vec<CellKey> = Vec::new();
    let mut x = x0;
    while x < x1
        invariant
            x0 <= x <= x1 || (x0 > x1 && x == x0),
            cells@ == block_cells(sheet, pos, x0 as int, x as int, y0 as int, y1 as int),
        decreases x1 - x,
    {
        let ghost before = cells@;
        let mut y = y0;
        while y < y1
            invariant
                y0 <= y <= y1 || (y0 > y1 && y == y0),
                cells@ == before + column_cells(sheet, pos, x as int, y0 as int, y as int),
            decreases y1 - y,
        {
            let ghost shown = cells@;
            let cx: i128 = pos.x as i128 + x as i128;
            let cy: i128 = pos.y as i128 + y as i128;
            if cx <= i64::MAX as i128 && cy <= i64::MAX as i128 {
                cells.push((sheet.id, cx as i64, cy as i64));
            }
            y += 1;
            assert(cells@ =~= before + column_cells(sheet, pos, x as int, y0 as int, y as int));
        }
        assert(column_cells(sheet, pos, x as int, y0 as int, y as int) == column_cells(
            sheet,
            pos,
            x as int,
            y0 as int,
            y1 as int,
        )) by {
            if y0 >= y1 {
            }
        }
        x += 1;
    }
    cells
}

/// Puts `cells` into the set `cells_to_compute`, one after the other.
pub fn insert_cells(cells_to_compute: &mut IndexSet<CellKey>, cells: &Vec<CellKey>)
    ensures
        index_set_items(*final(cells_to_compute)) == inserted(
            index_set_items(*old(cells_to_compute)),
            cells@,
        ),
{
    let mut i: usize = 0;
    while i < cells.len()
        invariant
            i <= cells.len(),
            index_set_items(*cells_to_compute) == inserted(
                index_set_items(*old(cells_to_compute)),
                cells@.subrange(0, i as int),
            ),
        decreases cells.len() - i,
    {
        let ghost part = cells@.subrange(0, i + 1);
        assert(part.drop_last() =~= cells@.subrange(0, i as int));
        assert(part.last() == cells@[i as int]);
        index_set_insert(cells_to_compute, cells[i]);
        i += 1;
    }
    assert(cells@.subrange(0, i as int) =~= cells@);
}

/// Notes what changes when the code cell at `pos` of `sheet` gets the
/// run `new_code_cell_value` in place of `old_code_cell_value`: the
/// cells that its output no longer covers are put into
/// `cells_to_compute`, and if there are any, the summary lists the sheet
/// among those with changed cells.
pub fn fetch_code_cell_difference(
    sheet: &Sheet,
    pos: Pos,
    old_code_cell_value: Option<CodeRun>,
    new_code_cell_value: Option<CodeRun>,
    summary: &mut TransactionSummary,
    cells_to_compute: &mut IndexSet<CellKey>,
)
    ensures
        index_set_items(*final(cells_to_compute)) == inserted(
            index_set_items(*old(cells_to_compute)),
            difference_cells(
                sheet@.id,
                pos,
                size_of(old_code_cell_value),
                size_of(new_code_cell_value),
            ),
        ),
        final(summary)@ == if difference_cells(
            sheet@.id,
            pos,
            size_of(old_code_cell_value),
            size_of(new_code_cell_value),
        ).len() > 0 {
            SummaryView {
                cell_sheets_modified: old(summary)@.cell_sheets_modified.insert(sheet@.id),
                ..old(summary)@
            }
        } else {
            old(summary)@
        },
{
    let (old_w, old_h) = match &old_code_cell_value {
        Some(run) => run.output_size(),
        None => (0, 0),
    };
    let (new_w, new_h) = match &new_code_cell_value {
        Some(run) => run.output_size(),
        None => (0, 0),
    };
    let id = sheet.id();
    let mut cells: Vec<CellKey> = Vec::new();
    if old_w > new_w {
        let mut columns = collect_block(id, pos, new_w, old_w, 0, new_h);
        cells.append(&mut columns);
    }
    if old_h > new_h {
        let mut rows = collect_block(id, pos, 0, old_w, new_h, old_h);
        cells.append(&mut rows);
    }
    assert(cells@ =~= difference_cells(id, pos, (old_w, old_h), (new_w, new_h)));
    if cells.len() > 0 {
        summary.cell_sheets_modified.insert(id);
    }
    insert_cells(cells_to_compute, &cells);
}

/// Whether the value that a run shows in its own cell is HTML.
pub open spec fn shows_html(run: Option<CodeRun>) -> bool {
    match run {
        Some(r) => match r.spec_get_output_value(0, 0) {
            Some(v) => v is Html,
            None => false,
        },
        None => false,
    }
}

/// Whether the run gave a value.
pub open spec fn has_output(run: Option<CodeRun>) -> bool {
    match run {
        Some(r) => r.result is Output,
        None => false,
    }
}

/// The cells that a new output covers besides the code cell itself.
pub open spec fn covered_cells(sheet: SheetId, pos: Pos, run: Option<CodeRun>) -> Seq<CellKey> {
    match run {
        Some(r) => match r.result {
            CodeRunResult::Output(Value::Array(a)) => {
                let all = block_cells(sheet, pos, 0, a.width as int, 0, a.height as int);
                if all.len() > 0 {
                    all.drop_first()
                } else {
                    all
                }
            },
            _ => Seq::empty(),
        },
        None => Seq::empty(),
    }
}

/// The summary after the code cell at a cell of `sheet` got the run
/// `updated` in place of `previous`.
pub open spec fn summary_after_update(
    s: SummaryView,
    sheet: SheetId,
    pos: Pos,
    previous: Option<CodeRun>,
    updated: Option<CodeRun>,
) -> SummaryView {
    let changed = updated is Some || difference_cells(
        sheet,
        pos,
        size_of(previous),
        size_of(updated),
    ).len() > 0;
    SummaryView {
        save: true,
        html: if shows_html(previous) || shows_html(updated) {
            s.html.insert(sheet)
        } else {
            s.html
        },
        cell_sheets_modified: if changed {
            s.cell_sheets_modified.insert(sheet)
        } else {
            s.cell_sheets_modified
        },
        generate_thumbnail: s.generate_thumbnail || updated is Some,
        code_cells_modified: s.code_cells_modified.insert(sheet),
        ..s
    }
}

/// Stores `updated_code_cell_value` as the run of the code cell that
/// `cell_ref` names, or removes the run that is there.
///
/// The edit that puts the earlier run back is added to
/// `reverse_operations`. The summary notes that there is something to
/// save, which sheet has changed, and whether HTML or the thumbnail is
/// concerned. The cells that the new output covers besides the code cell
/// itself, and then the cells that the output no longer covers, are put
/// into `cells_to_compute`. Where the sheet is missing only the need to
/// save is noted. The result says whether the new run gave a value.
pub fn update_code_cell_value(
    grid_controller: &mut GridController,
    cell_ref: CellRef,
    updated_code_cell_value: Option<CodeRun>,
    cells_to_compute: &mut IndexSet<CellKey>,
    reverse_operations: &mut Vec<Operation>,
    summary: &mut TransactionSummary,
) -> (success: bool)
    requires
        old(grid_controller).grid.wf(),
    ensures
        final(grid_controller).grid.wf(),
        final(grid_controller).transactions == old(grid_controller).transactions,
        final(grid_controller).undo_stack == old(grid_controller).undo_stack,
        final(grid_controller).redo_stack == old(grid_controller).redo_stack,
        ({
            let g = old(grid_controller).grid@;
            let pos = cell_ref.spec_pos();
            let op = Operation::SetCodeRun {
                sheet_pos: SheetPos { x: cell_ref.column, y: cell_ref.row, sheet_id: cell_ref.sheet },
                code_run: updated_code_cell_value,
            };
            match sheet_index(g, cell_ref.sheet) {
                Some(i) => {
                    let previous = lookup(g[i].code_runs, pos);
                    &&& success == has_output(updated_code_cell_value)
                    &&& final(grid_controller).grid@ == apply_op(g, op)
                    &&& final(reverse_operations)@ == old(reverse_operations)@ + reverse_of(g, op)
                    &&& final(summary)@ == summary_after_update(
                        old(summary)@,
                        cell_ref.sheet,
                        pos,
                        previous,
                        updated_code_cell_value,
                    )
                    &&& index_set_items(*final(cells_to_compute)) == inserted(
                        inserted(
                            index_set_items(*old(cells_to_compute)),
                            covered_cells(cell_ref.sheet, pos, updated_code_cell_value),
                        ),
                        difference_cells(
                            cell_ref.sheet,
                            pos,
                            size_of(previous),
                            size_of(updated_code_cell_value),
                        ),
                    )
                },
                None => {
                    &&& !success
                    &&& final(grid_controller).grid@ == g
                    &&& final(reverse_operations)@ == old(reverse_operations)@
                    &&& final(summary)@ == (SummaryView { save: true, ..old(summary)@ })
                    &&& index_set_items(*final(cells_to_compute)) == index_set_items(
                        *old(cells_to_compute),
                    )
                },
            }
        }),
{
    summary.save = true;
    let pos = cell_ref.pos();
    let sheet_pos = SheetPos { x: cell_ref.column, y: cell_ref.row, sheet_id: cell_ref.sheet };
    let ghost g = grid_controller.grid@;
    let updated = match &updated_code_cell_value {
        Some(run) => Some(run.clone()),
        None => None,
    };
    let op = Operation::SetCodeRun { sheet_pos, code_run: updated_code_cell_value };
    let undo = match grid_controller.grid.apply_operation(&op) {
        Some(undo) => undo,
        None => {
            assert(reverse_of(g, op).len() == 0);
            assert(!applies(g, op));
            return false;
        },
    };
    let previous = match &undo {
        Operation::SetCodeRun { code_run: Some(run), .. } => Some(run.clone()),
        _ => None,
    };
    assert(reverse_of(g, op) == seq![undo]);
    assert(reverse_of(g, op).len() == 1);
    assert(applies(g, op));
    assert(crate::grid::is_first_sheet(g, cell_ref.sheet, sheet_index(g, cell_ref.sheet)->0));
    let html_before = match &previous {
        Some(run) => match run.get_output_value(0, 0) {
            Some(v) => v.is_html(),
            None => false,
        },
        None => false,
    };
    let html_after = match &updated {
        Some(run) => match run.get_output_value(0, 0) {
            Some(v) => v.is_html(),
            None => false,
        },
        None => false,
    };
    if html_before || html_after {
        summary.html.insert(cell_ref.sheet);
    }
    let mut success = false;
    let mut covered: Vec<CellKey> = Vec::new();
    match &updated {
        Some(run) => {
            summary.cell_sheets_modified.insert(cell_ref.sheet);
            summary.generate_thumbnail = true;
            match &run.result {
                CodeRunResult::Output(Value::Array(a)) => {
                    success = true;
                    let mut all = collect_block(cell_ref.sheet, pos, 0, a.width, 0, a.height);
                    if all.len() > 0 {
                        all.remove(0);
                    }
                    covered = all;
                },
                CodeRunResult::Output(Value::Single(_)) => {
                    success = true;
                },
                CodeRunResult::Failed(_) => {},
            }
        },
        None => {},
    }
    assert(covered@ =~= covered_cells(cell_ref.sheet, pos, updated));
    insert_cells(cells_to_compute, &covered);
    proof {
        crate::controller::operation::lemma_apply_op_wf(g, op);
        let i = sheet_index(g, cell_ref.sheet)->0;
        assert(grid_controller.grid@[i].id == cell_ref.sheet);
        assert(reverse_of(g, op)[0] == undo);
        assert(undo == crate::controller::operation::sheet_reverse(g[i], op));
        assert(previous == lookup(g[i].code_runs, pos));
    }
    match grid_controller.grid.try_sheet(cell_ref.sheet) {
        Some(sheet) => {
            assert(sheet@.id == cell_ref.sheet);
            fetch_code_cell_difference(sheet, pos, previous, updated, summary, cells_to_compute);
        },
        None => {},
    }
    reverse_operations.push(undo);
    summary.code_cells_modified.insert(cell_ref.sheet);
    proof {
        assert(summary@.html =~= summary_after_update(
            old(summary)@,
            cell_ref.sheet,
            pos,
            previous,
            updated,
        ).html);
        assert(summary@.code_cells_modified =~= summary_after_update(
            old(summary)@,
            cell_ref.sheet,
            pos,
            previous,
            updated,
        ).code_cells_modified);
        assert(summary@.cell_sheets_modified =~= summary_after_update(
            old(summary)@,
            cell_ref.sheet,
            pos,
            previous,
            updated,
        ).cell_sheets_modified);
        assert(reverse_operations@ =~= old(reverse_operations)@ + reverse_of(g, op));
    }
    success
}

} // verus!
