//! The edits that a transaction is made of, and what each does to a grid.

use crate::grid::sheet::SheetView;
use crate::grid::{grid_wf, is_first_sheet, lemma_sheet_index, sheet_index, Grid, GridView};
use crate::pos_map::{lemma_put, lemma_put_undo, lookup};
use crate::position::{SheetId, SheetPos, SheetRect};
use crate::values::{CellValue, CodeRun, OutputSize};
use vstd::prelude::*;

verus! {

/// One edit. The first three are primitive: each changes one entry of one
/// sheet and can be undone by an edit of the same kind. The others are
/// requests, which a running transaction turns into primitive edits
/// according to what the grid holds at that moment.
#[derive(Debug, PartialEq, Eq)]
pub enum Operation {
    /// Stores a value in a cell; a blank value empties it.
    SetCellValue { sheet_pos: SheetPos, value: CellValue },
    /// Sets or removes the run of a code cell.
    SetCodeRun { sheet_pos: SheetPos, code_run: Option<CodeRun> },
    /// Sets or clears the display size of a cell.
    SetOutputSize { sheet_pos: SheetPos, output_size: Option<OutputSize> },
    /// Moves the values in `source` so that its first cell lands on `dest`.
    MoveCells { source: SheetRect, dest: SheetPos },
    /// Runs the code cell at `sheet_pos` and stores what it gives.
    ComputeCode { sheet_pos: SheetPos },
    /// Looks for code cells whose output touches `sheet_rect` and can no
    /// longer, or can again, be laid out.
    CheckSpills { sheet_rect: SheetRect },
    /// Looks at every code cell of the sheet for an output that can no
    /// longer, or can again, be laid out.
    CheckAllSpills { sheet_id: SheetId },
}

impl Clone for Operation {
    fn clone(&self) -> (r: Self)
        ensures
            r == *self,
    {
        match self {
            Operation::SetCellValue { sheet_pos, value } => Operation::SetCellValue {
                sheet_pos: *sheet_pos,
                value: value.clone(),
            },
            Operation::SetCodeRun { sheet_pos, code_run } => Operation::SetCodeRun {
                sheet_pos: *sheet_pos,
                code_run: match code_run {
                    Some(run) => Some(run.clone()),
                    None => None,
                },
            },
            Operation::SetOutputSize { sheet_pos, output_size } => Operation::SetOutputSize {
                sheet_pos: *sheet_pos,
                output_size: *output_size,
            },
            Operation::MoveCells { source, dest } => Operation::MoveCells {
                source: *source,
                dest: *dest,
            },
            Operation::ComputeCode { sheet_pos } => Operation::ComputeCode {
                sheet_pos: *sheet_pos,
            },
            Operation::CheckSpills { sheet_rect } => Operation::CheckSpills {
                sheet_rect: *sheet_rect,
            },
            Operation::CheckAllSpills { sheet_id } => Operation::CheckAllSpills {
                sheet_id: *sheet_id,
            },
        }
    }
}

impl Operation {
    /// Whether the edit is primitive.
    pub open spec fn spec_is_primitive(&self) -> bool {
        *self is SetCellValue || *self is SetCodeRun || *self is SetOutputSize
    }

    #[verifier::when_used_as_spec(spec_is_primitive)]
    pub fn is_primitive(&self) -> (r: bool)
        ensures
            r == self.spec_is_primitive(),
    {
        match self {
            Operation::SetCellValue { .. } => true,
            Operation::SetCodeRun { .. } => true,
            Operation::SetOutputSize { .. } => true,
            _ => false,
        }
    }

    /// The sheet that the edit changes or, for a request, starts from.
    pub open spec fn spec_sheet_id(&self) -> SheetId {
        match *self {
            Operation::SetCellValue { sheet_pos, .. } => sheet_pos.sheet_id,
            Operation::SetCodeRun { sheet_pos, .. } => sheet_pos.sheet_id,
            Operation::SetOutputSize { sheet_pos, .. } => sheet_pos.sheet_id,
            Operation::MoveCells { source, .. } => source.sheet_id,
            Operation::ComputeCode { sheet_pos } => sheet_pos.sheet_id,
            Operation::CheckSpills { sheet_rect } => sheet_rect.sheet_id,
            Operation::CheckAllSpills { sheet_id } => sheet_id,
        }
    }

    #[verifier::when_used_as_spec(spec_sheet_id)]
    pub fn sheet_id(&self) -> (r: SheetId)
        ensures
            r == self.spec_sheet_id(),
    {
        match self {
            Operation::SetCellValue { sheet_pos, .. } => sheet_pos.sheet_id,
            Operation::SetCodeRun { sheet_pos, .. } => sheet_pos.sheet_id,
            Operation::SetOutputSize { sheet_pos, .. } => sheet_pos.sheet_id,
            Operation::MoveCells { source, .. } => source.sheet_id,
            Operation::ComputeCode { sheet_pos } => sheet_pos.sheet_id,
            Operation::CheckSpills { sheet_rect } => sheet_rect.sheet_id,
            Operation::CheckAllSpills { sheet_id } => *sheet_id,
        }
    }
}

/// Whether every edit of `ops` is primitive.
pub open spec fn all_primitive(ops: Seq<Operation>) -> bool {
    forall|i: int| 0 <= i < ops.len() ==> (#[trigger] ops[i]).is_primitive()
}

/// The sheet `s` after the primitive edit `op`; a request leaves it as it is.
pub open spec fn sheet_apply(s: SheetView, op: Operation) -> SheetView {
    match op {
        Operation::SetCellValue { sheet_pos, value } => s.with_cell(sheet_pos.spec_pos(), value),
        Operation::SetCodeRun { sheet_pos, code_run } => s.with_code_run(
            sheet_pos.spec_pos(),
            code_run,
        ),
        Operation::SetOutputSize { sheet_pos, output_size } => s.with_output_size(
            sheet_pos.spec_pos(),
            output_size,
        ),
        _ => s,
    }
}

/// The primitive edit that undoes `op` on the sheet `s`: it puts back what
/// `s` holds where `op` writes.
pub open spec fn sheet_reverse(s: SheetView, op: Operation) -> Operation {
    match op {
        Operation::SetCellValue { sheet_pos, value } => Operation::SetCellValue {
            sheet_pos,
            value: s.cell(sheet_pos.spec_pos()),
        },
        Operation::SetCodeRun { sheet_pos, code_run } => Operation::SetCodeRun {
            sheet_pos,
            code_run: lookup(s.code_runs, sheet_pos.spec_pos()),
        },
        Operation::SetOutputSize { sheet_pos, output_size } => Operation::SetOutputSize {
            sheet_pos,
            output_size: lookup(s.output_sizes, sheet_pos.spec_pos()),
        },
        _ => op,
    }
}

/// Whether the primitive edit `op` finds its sheet in `g`. One that does
/// not is skipped.
pub open spec fn applies(g: GridView, op: Operation) -> bool {
    op.is_primitive() && sheet_index(g, op.spec_sheet_id()) is Some
}

/// The grid `g` after the primitive edit `op`. An edit whose sheet is
/// missing, and a request, leave the grid as it is.
pub open spec fn apply_op(g: GridView, op: Operation) -> GridView {
    if applies(g, op) {
        let i = sheet_index(g, op.spec_sheet_id())->0;
        g.update(i, sheet_apply(g[i], op))
    } else {
        g
    }
}

/// The edits that undo `op` on `g`: one edit, or none where `op` changes nothing.
pub open spec fn reverse_of(g: GridView, op: Operation) -> Seq<Operation> {
    if applies(g, op) {
        seq![sheet_reverse(g[sheet_index(g, op.spec_sheet_id())->0], op)]
    } else {
        Seq::empty()
    }
}

/// The grid `g` after the primitive edits `ops`, first to last.
pub open spec fn apply_ops(g: GridView, ops: Seq<Operation>) -> GridView
    decreases ops.len(),
{
    if ops.len() == 0 {
        g
    } else {
        apply_ops(apply_op(g, ops[0]), ops.drop_first())
    }
}

/// The edits that undo `ops` on `g`: the undoing edits of each, last edit first.
pub open spec fn reverse_ops(g: GridView, ops: Seq<Operation>) -> Seq<Operation>
    decreases ops.len(),
{
    if ops.len() == 0 {
        Seq::empty()
    } else {
        reverse_ops(apply_op(g, ops[0]), ops.drop_first()) + reverse_of(g, ops[0])
    }
}

/// A primitive edit keeps every sheet in order and keeps the sheets'
/// identifiers, so the same edits find the same sheets afterwards.
pub proof fn lemma_apply_op_wf(g: GridView, op: Operation)
    requires
        grid_wf(g),
    ensures
        grid_wf(apply_op(g, op)),
        apply_op(g, op).len() == g.len(),
        forall|i: int| 0 <= i < g.len() ==> (#[trigger] apply_op(g, op)[i]).id == g[i].id,
        forall|id: SheetId| sheet_index(apply_op(g, op), id) == sheet_index(g, id),
{
    let h = apply_op(g, op);
    if applies(g, op) {
        let i = sheet_index(g, op.spec_sheet_id())->0;
        let s = g[i];
        match op {
            Operation::SetCellValue { sheet_pos, value } => {
                s.lemma_with_cell(sheet_pos.spec_pos(), value);
            },
            Operation::SetCodeRun { sheet_pos, code_run } => {
                lemma_put(s.code_runs, sheet_pos.spec_pos(), code_run);
            },
            Operation::SetOutputSize { sheet_pos, output_size } => {
                lemma_put(s.output_sizes, sheet_pos.spec_pos(), output_size);
            },
            _ => {},
        }
        assert(h[i].wf());
    }
    assert forall|i: int| 0 <= i < g.len() implies (#[trigger] h[i]).id == g[i].id by {}
    lemma_same_ids(g, h);
}

/// Grids whose sheets carry the same identifiers resolve identifiers alike.
pub proof fn lemma_same_ids(g: GridView, h: GridView)
    requires
        g.len() == h.len(),
        forall|i: int| 0 <= i < g.len() ==> (#[trigger] h[i]).id == g[i].id,
    ensures
        forall|id: SheetId| sheet_index(h, id) == sheet_index(g, id),
{
    assert forall|id: SheetId| sheet_index(h, id) == sheet_index(g, id) by {
        if sheet_index(g, id) is Some {
            let i = sheet_index(g, id)->0;
            assert(is_first_sheet(g, id, i));
            assert(is_first_sheet(h, id, i)) by {
                assert forall|j: int| 0 <= j < i implies (#[trigger] h[j]).id != id by {
                    assert(g[j].id != id);
                }
            }
            lemma_sheet_index(h, id, i);
        } else if sheet_index(h, id) is Some {
            let i = sheet_index(h, id)->0;
            assert(is_first_sheet(h, id, i));
            assert(is_first_sheet(g, id, i)) by {
                assert forall|j: int| 0 <= j < i implies (#[trigger] g[j]).id != id by {
                    assert(h[j].id != id);
                }
            }
        }
    }
}

/// Undoing a primitive edit restores the grid exactly.
pub proof fn lemma_undo_op(g: GridView, op: Operation)
    requires
        grid_wf(g),
    ensures
        apply_ops(apply_op(g, op), reverse_of(g, op)) == g,
        all_primitive(reverse_of(g, op)),
{
    let h = apply_op(g, op);
    let rev = reverse_of(g, op);
    lemma_apply_op_wf(g, op);
    if applies(g, op) {
        let i = sheet_index(g, op.spec_sheet_id())->0;
        let s = g[i];
        let r = sheet_reverse(s, op);
        assert(rev[0] == r);
        assert(rev.drop_first() =~= Seq::<Operation>::empty());
        assert(r.spec_sheet_id() == op.spec_sheet_id());
        assert(applies(h, r));
        match op {
            Operation::SetCellValue { sheet_pos, value } => {
                let p = sheet_pos.spec_pos();
                lemma_put_undo(s.cells, p, value.stored());
                if lookup(s.cells, p) is Some {
                    lemma_stored_not_blank(s, p);
                }
                assert(sheet_apply(h[i], r) == s);
            },
            Operation::SetCodeRun { sheet_pos, code_run } => {
                lemma_put_undo(s.code_runs, sheet_pos.spec_pos(), code_run);
                assert(sheet_apply(h[i], r) == s);
            },
            Operation::SetOutputSize { sheet_pos, output_size } => {
                lemma_put_undo(s.output_sizes, sheet_pos.spec_pos(), output_size);
                assert(sheet_apply(h[i], r) == s);
            },
            _ => {},
        }
        assert(apply_op(h, r) =~= g);
        assert(apply_ops(apply_op(h, r), rev.drop_first()) == g);
    } else {
        assert(rev =~= Seq::<Operation>::empty());
    }
}

/// A sheet in order stores no blank value.
pub proof fn lemma_stored_not_blank(s: SheetView, p: crate::position::Pos)
    requires
        s.wf(),
        lookup(s.cells, p) is Some,
    ensures
        !(lookup(s.cells, p)->0 is Blank),
        s.cell(p).stored() == lookup(s.cells, p),
{
    crate::pos_map::lemma_rank_splits(s.cells, p);
    let r = crate::pos_map::rank(s.cells, p);
    assert(crate::pos_map::has_key(s.cells, p));
    assert(!(s.cells[r].1 is Blank));
}

/// Applying edits one list after another is applying their concatenation.
pub proof fn lemma_apply_ops_concat(g: GridView, a: Seq<Operation>, b: Seq<Operation>)
    ensures
        apply_ops(g, a + b) == apply_ops(apply_ops(g, a), b),
    decreases a.len(),
{
    if a.len() == 0 {
        assert(a + b =~= b);
    } else {
        assert((a + b)[0] == a[0]);
        assert((a + b).drop_first() =~= a.drop_first() + b);
        lemma_apply_ops_concat(apply_op(g, a[0]), a.drop_first(), b);
    }
}

/// Primitive edits keep the grid in order and its sheets' identifiers.
pub proof fn lemma_apply_ops_wf(g: GridView, ops: Seq<Operation>)
    requires
        grid_wf(g),
    ensures
        grid_wf(apply_ops(g, ops)),
        apply_ops(g, ops).len() == g.len(),
        forall|i: int| 0 <= i < g.len() ==> (#[trigger] apply_ops(g, ops)[i]).id == g[i].id,
    decreases ops.len(),
{
    if ops.len() > 0 {
        lemma_apply_op_wf(g, ops[0]);
        lemma_apply_ops_wf(apply_op(g, ops[0]), ops.drop_first());
    }
}

/// Undoing a list of edits restores the grid exactly.
pub proof fn lemma_undo_ops(g: GridView, ops: Seq<Operation>)
    requires
        grid_wf(g),
    ensures
        apply_ops(apply_ops(g, ops), reverse_ops(g, ops)) == g,
        all_primitive(reverse_ops(g, ops)),
    decreases ops.len(),
{
    if ops.len() > 0 {
        let h = apply_op(g, ops[0]);
        lemma_apply_op_wf(g, ops[0]);
        lemma_undo_ops(h, ops.drop_first());
        lemma_undo_op(g, ops[0]);
        lemma_apply_ops_concat(
            apply_ops(g, ops),
            reverse_ops(h, ops.drop_first()),
            reverse_of(g, ops[0]),
        );
    }
}

impl Grid {
    /// Carries out the primitive edit `op` and returns the edit that undoes
    /// it, or `None` where the sheet is missing and nothing was done.
    pub fn apply_operation(&mut self, op: &Operation) -> (undo: Option<Operation>)
        requires
            old(self).wf(),
            op.is_primitive(),
        ensures
            final(self).wf(),
            final(self)@ == apply_op(old(self)@, *op),
            match undo {
                Some(r) => reverse_of(old(self)@, *op) == seq![r],
                None => reverse_of(old(self)@, *op) == Seq::<Operation>::empty(),
            },
    {
        proof {
            lemma_apply_op_wf(self@, *op);
        }
        let ghost g = self@;
        match self.try_sheet_mut(op.sheet_id()) {
            Some(sheet) => {
                let undo = match op {
                    Operation::SetCellValue { sheet_pos, value } => {
                        let prev = sheet.set_cell_value(sheet_pos.pos(), value.clone());
                        Operation::SetCellValue { sheet_pos: *sheet_pos, value: prev }
                    },
                    Operation::SetCodeRun { sheet_pos, code_run } => {
                        let run = match code_run {
                            Some(run) => Some(run.clone()),
                            None => None,
                        };
                        let prev = sheet.set_code_cell_value(sheet_pos.pos(), run);
                        Operation::SetCodeRun { sheet_pos: *sheet_pos, code_run: prev }
                    },
                    Operation::SetOutputSize { sheet_pos, output_size } => {
                        let prev = sheet.set_output_size(sheet_pos.pos(), *output_size);
                        Operation::SetOutputSize { sheet_pos: *sheet_pos, output_size: prev }
                    },
                    _ => op.clone(),
                };
                Some(undo)
            },
            None => None,
        }
    }
}

} // verus!
