//! The grid: the sheets of a document and what each cell of them holds.

pub mod code;
pub mod js_types;
pub mod sheet;

use crate::grid::sheet::{bounds_of, GridBounds, Sheet, SheetView};
use crate::position::SheetId;
use vstd::prelude::*;

verus! {

/// The sheets of a grid, as far as edits can change and read them.
pub type GridView = Seq<SheetView>;

/// Whether `i` is the first sheet of `g` with the identifier `id`.
pub open spec fn is_first_sheet(g: GridView, id: SheetId, i: int) -> bool {
    &&& 0 <= i < g.len()
    &&& g[i].id == id
    &&& forall|j: int| 0 <= j < i ==> (#[trigger] g[j]).id != id
}

/// The index of the sheet that `id` names: the first one that carries it.
pub open spec fn sheet_index(g: GridView, id: SheetId) -> Option<int> {
    if exists|i: int| is_first_sheet(g, id, i) {
        Some(choose|i: int| is_first_sheet(g, id, i))
    } else {
        None
    }
}

/// The first sheet with an identifier is the one that the identifier names.
pub proof fn lemma_sheet_index(g: GridView, id: SheetId, i: int)
    requires
        is_first_sheet(g, id, i),
    ensures
        sheet_index(g, id) == Some(i),
{
    let c = choose|k: int| is_first_sheet(g, id, k);
    if c < i {
        assert(g[c].id != id);
    } else if i < c {
        assert(g[i].id != id);
    }
}

/// An identifier that no sheet carries names no sheet.
pub proof fn lemma_no_sheet(g: GridView, id: SheetId)
    requires
        forall|j: int| 0 <= j < g.len() ==> (#[trigger] g[j]).id != id,
    ensures
        sheet_index(g, id) is None,
{
}

/// Every sheet of `g` keeps its cells in order.
pub open spec fn grid_wf(g: GridView) -> bool {
    forall|i: int| 0 <= i < g.len() ==> (#[trigger] g[i]).wf()
}

/// The sheets of one document.
pub struct Grid {
    sheets: Vec<Sheet>,
}

impl View for Grid {
    type V = GridView;

    closed spec fn view(&self) -> GridView {
        self.sheets@.map_values(|s: Sheet| s@)
    }
}

impl Grid {
    /// Every sheet keeps its cells in order.
    pub open spec fn wf(&self) -> bool {
        grid_wf(self@)
    }

    /// Whether every sheet is in order, as it always is unless the grid
    /// was built by other means than the functions of this type.
    pub fn is_valid(&self) -> (r: bool)
        ensures
            r == self.wf(),
    {
        let mut i: usize = 0;
        while i < self.sheets.len()
            invariant
                i <= self.sheets.len(),
                forall|k: int| 0 <= k < i ==> (#[trigger] self@[k]).wf(),
            decreases self.sheets.len() - i,
        {
            if !self.sheets[i].is_valid() {
                assert(!self@[i as int].wf());
                return false;
            }
            i += 1;
        }
        true
    }

    /// A grid of one empty sheet with the identifier `id`.
    pub fn with_sheet(id: SheetId) -> (r: Self)
        ensures
            r@ == seq![SheetView::empty(id)],
            r.wf(),
    {
        let mut sheets = Vec::new();
        sheets.push(Sheet::new(id));
        let r = Grid { sheets };
        assert(r@ =~= seq![SheetView::empty(id)]);
        r
    }

    /// A grid without sheets.
    pub fn empty() -> (r: Self)
        ensures
            r@ == Seq::<SheetView>::empty(),
            r.wf(),
    {
        let r = Grid { sheets: Vec::new() };
        assert(r@ =~= Seq::<SheetView>::empty());
        r
    }

    /// Adds an empty sheet at the end.
    pub fn add_sheet(&mut self, id: SheetId)
        requires
            old(self).wf(),
        ensures
            final(self)@ == old(self)@.push(SheetView::empty(id)),
            final(self).wf(),
    {
        self.sheets.push(Sheet::new(id));
        assert(self@ =~= old(self)@.push(SheetView::empty(id)));
    }

    /// The sheets, in order.
    pub fn sheets(&self) -> (r: &Vec<Sheet>)
        ensures
            r@.map_values(|s: Sheet| s@) == self@,
    {
        &self.sheets
    }

    /// The sheets, to be changed in place.
    pub fn sheets_mut(&mut self) -> (r: &mut Vec<Sheet>)
        ensures
            r@.map_values(|s: Sheet| s@) == old(self)@,
            final(self)@ == final(r)@.map_values(|s: Sheet| s@),
    {
        &mut self.sheets
    }

    /// The identifiers of the sheets, in order.
    pub fn sheet_ids(&self) -> (r: Vec<SheetId>)
        ensures
            r@ == self@.map_values(|s: SheetView| s.id),
    {
        let mut ids = Vec::new();
        let mut i: usize = 0;
        while i < self.sheets.len()
            invariant
                i <= self.sheets.len(),
                ids@ == self@.subrange(0, i as int).map_values(|s: SheetView| s.id),
            decreases self.sheets.len() - i,
        {
            ids.push(self.sheets[i].id());
            i += 1;
            assert(ids@ =~= self@.subrange(0, i as int).map_values(|s: SheetView| s.id));
        }
        assert(self@.subrange(0, i as int) =~= self@);
        ids
    }

    /// Where the sheet that `id` names stands, if the grid has one.
    pub fn sheet_position(&self, id: SheetId) -> (r: Option<usize>)
        ensures
            match r {
                Some(i) => sheet_index(self@, id) == Some(i as int),
                None => sheet_index(self@, id) is None,
            },
    {
        let mut i: usize = 0;
        while i < self.sheets.len()
            invariant
                i <= self.sheets.len(),
                forall|j: int| 0 <= j < i ==> (#[trigger] self@[j]).id != id,
            decreases self.sheets.len() - i,
        {
            if self.sheets[i].id() == id {
                proof {
                    lemma_sheet_index(self@, id, i as int);
                }
                return Some(i);
            }
            i += 1;
        }
        proof {
            lemma_no_sheet(self@, id);
        }
        None
    }

    /// The sheet that `id` names: the first one that carries it.
    pub closed spec fn spec_try_sheet(&self, id: SheetId) -> Option<&Sheet> {
        match sheet_index(self@, id) {
            Some(i) => Some(&self.sheets@[i]),
            None => None,
        }
    }

    /// The sheet that `id` names.
    #[verifier::when_used_as_spec(spec_try_sheet)]
    pub fn try_sheet(&self, id: SheetId) -> (r: Option<&Sheet>)
        ensures
            r == self.spec_try_sheet(id),
            match r {
                Some(s) => sheet_index(self@, id) is Some && s@ == self@[sheet_index(
                    self@,
                    id,
                )->0],
                None => sheet_index(self@, id) is None,
            },
    {
        match self.sheet_position(id) {
            Some(i) => Some(&self.sheets[i]),
            None => None,
        }
    }

    /// The bounds of the sheet at `index`, as they were last calculated.
    pub closed spec fn bounds_at(&self, index: int) -> GridBounds {
        self.sheets@[index].spec_bounds()
    }

    /// Whether the bounds of the sheet that `id` names are up to date: the
    /// smallest rectangle around its cells that hold a value.
    pub open spec fn bounds_current(&self, id: SheetId) -> bool {
        match sheet_index(self@, id) {
            Some(i) => bounds_of(self@[i].cells, self.bounds_at(i)),
            None => true,
        }
    }

    /// Brings the bounds of the sheet that `id` names up to date. What the
    /// sheets hold stays as it is, and so do the bounds of the other sheets.
    pub fn recalculate_bounds(&mut self, id: SheetId)
        ensures
            final(self)@ == old(self)@,
            final(self).bounds_current(id),
            forall|j: int|
                0 <= j < old(self)@.len() && sheet_index(old(self)@, id) != Some(j) ==> final(self).bounds_at(j) == old(self).bounds_at(j),
    {
        match self.sheet_position(id) {
            Some(i) => {
                let s = &mut self.sheets[i];
                s.recalculate_bounds();
                assert(self@ =~= old(self)@);
            },
            None => {},
        }
    }

    /// The sheet that `id` names, to be changed in place.
    pub fn try_sheet_mut(&mut self, id: SheetId) -> (r: Option<&mut Sheet>)
        ensures
            match r {
                Some(s) => {
                    &&& sheet_index(old(self)@, id) is Some
                    &&& s@ == old(self)@[sheet_index(old(self)@, id)->0]
                    &&& final(self)@ == old(self)@.update(
                        sheet_index(old(self)@, id)->0,
                        final(s)@,
                    )
                },
                None => sheet_index(old(self)@, id) is None && final(self)@ == old(self)@,
            },
    {
        match self.sheet_position(id) {
            Some(i) => {
                let ghost before = self.sheets@;
                let s = &mut self.sheets[i];
                proof {
                    assert(before.update(i as int, *final(s)).map_values(|s: Sheet| s@)
                        =~= before.map_values(|s: Sheet| s@).update(i as int, final(s)@));
                }
                Some(s)
            },
            None => None,
        }
    }
}

} // verus!
