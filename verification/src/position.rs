//! Positions and rectangles on a sheet.

use vstd::prelude::*;

verus! {

/// Identifies a sheet. The identifier is the 128-bit value of a UUID.
#[derive(Debug, PartialEq, Eq, Structural, Hash)]
pub struct SheetId {
    pub id: u128,
}

impl Clone for SheetId {
    fn clone(&self) -> (r: Self)
        ensures
            r == *self,
    {
        SheetId { id: self.id }
    }
}

impl Copy for SheetId {

}

/// A cell position on some sheet.
#[derive(Debug, PartialEq, Eq, Structural, Hash)]
pub struct Pos {
    pub x: i64,
    pub y: i64,
}

impl Clone for Pos {
    fn clone(&self) -> (r: Self)
        ensures
            r == *self,
    {
        Pos { x: self.x, y: self.y }
    }
}

impl Copy for Pos {

}

/// The order in which a sheet keeps its cells: by column, then by row.
pub open spec fn pos_lt(a: Pos, b: Pos) -> bool {
    a.x < b.x || (a.x == b.x && a.y < b.y)
}

impl Pos {
    /// The position in column `x` and row `y`.
    pub fn new(x: i64, y: i64) -> (r: Pos)
        ensures
            r == (Pos { x, y }),
    {
        Pos { x, y }
    }

    /// Whether `self` comes strictly before `other` in sheet order.
    pub fn lt(&self, other: &Pos) -> (r: bool)
        ensures
            r == pos_lt(*self, *other),
    {
        self.x < other.x || (self.x == other.x && self.y < other.y)
    }

    /// The position on the sheet `sheet_id`.
    pub fn to_sheet_pos(&self, sheet_id: SheetId) -> (r: SheetPos)
        ensures
            r == (SheetPos { x: self.x, y: self.y, sheet_id }),
    {
        SheetPos { x: self.x, y: self.y, sheet_id }
    }
}

/// A cell position together with the sheet it lies on.
#[derive(Debug, PartialEq, Eq, Structural, Hash)]
pub struct SheetPos {
    pub x: i64,
    pub y: i64,
    pub sheet_id: SheetId,
}

impl Clone for SheetPos {
    fn clone(&self) -> (r: Self)
        ensures
            r == *self,
    {
        SheetPos { x: self.x, y: self.y, sheet_id: self.sheet_id }
    }
}

impl Copy for SheetPos {

}

impl SheetPos {
    /// The position without its sheet.
    pub open spec fn spec_pos(&self) -> Pos {
        Pos { x: self.x, y: self.y }
    }

    #[verifier::when_used_as_spec(spec_pos)]
    pub fn pos(&self) -> (r: Pos)
        ensures
            r == self.spec_pos(),
    {
        Pos { x: self.x, y: self.y }
    }
}

/// A rectangle of cells, both corners included.
#[derive(Debug, PartialEq, Eq, Structural, Hash)]
pub struct Rect {
    pub min: Pos,
    pub max: Pos,
}

impl Clone for Rect {
    fn clone(&self) -> (r: Self)
        ensures
            r == *self,
    {
        Rect { min: self.min, max: self.max }
    }
}

impl Copy for Rect {

}

impl Rect {
    /// The rectangle of the one cell at `pos`.
    pub fn single_pos(pos: Pos) -> (r: Rect)
        ensures
            r == (Rect { min: pos, max: pos }),
    {
        Rect { min: pos, max: pos }
    }

    /// Whether the cell at `pos` lies in the rectangle.
    pub open spec fn spec_contains(&self, pos: Pos) -> bool {
        self.min.x <= pos.x <= self.max.x && self.min.y <= pos.y <= self.max.y
    }

    #[verifier::when_used_as_spec(spec_contains)]
    pub fn contains(&self, pos: Pos) -> (r: bool)
        ensures
            r == self.spec_contains(pos),
    {
        self.min.x <= pos.x && pos.x <= self.max.x && self.min.y <= pos.y && pos.y <= self.max.y
    }

    /// Two rectangles intersect when some cell lies in both.
    pub open spec fn spec_intersects(&self, other: Rect) -> bool {
        exists|p: Pos| self.spec_contains(p) && other.spec_contains(p)
    }

    /// Whether some cell lies in both rectangles.
    pub fn intersects(&self, other: Rect) -> (r: bool)
        ensures
            r == self.spec_intersects(other),
    {
        let r = !(other.max.x < self.min.x || other.min.x > self.max.x || other.max.y < self.min.y
            || other.min.y > self.max.y) && self.min.x <= self.max.x && self.min.y <= self.max.y
            && other.min.x <= other.max.x && other.min.y <= other.max.y;
        proof {
            if r {
                let x = if self.min.x >= other.min.x {
                    self.min.x
                } else {
                    other.min.x
                };
                let y = if self.min.y >= other.min.y {
                    self.min.y
                } else {
                    other.min.y
                };
                let p = Pos { x, y };
                assert(self.spec_contains(p) && other.spec_contains(p));
            }
        }
        r
    }
}

/// A rectangle of cells on a given sheet.
#[derive(Debug, PartialEq, Eq, Structural, Hash)]
pub struct SheetRect {
    pub min: Pos,
    pub max: Pos,
    pub sheet_id: SheetId,
}

impl Clone for SheetRect {
    fn clone(&self) -> (r: Self)
        ensures
            r == *self,
    {
        SheetRect { min: self.min, max: self.max, sheet_id: self.sheet_id }
    }
}

impl Copy for SheetRect {

}

impl SheetRect {
    /// The rectangle of the one cell at `sheet_pos`.
    pub fn single_sheet_pos(sheet_pos: SheetPos) -> (r: SheetRect)
        ensures
            r == (SheetRect {
                min: sheet_pos.spec_pos(),
                max: sheet_pos.spec_pos(),
                sheet_id: sheet_pos.sheet_id,
            }),
    {
        SheetRect { min: sheet_pos.pos(), max: sheet_pos.pos(), sheet_id: sheet_pos.sheet_id }
    }

    /// The rectangle without its sheet.
    pub open spec fn spec_rect(&self) -> Rect {
        Rect { min: self.min, max: self.max }
    }

    #[verifier::when_used_as_spec(spec_rect)]
    pub fn rect(&self) -> (r: Rect)
        ensures
            r == self.spec_rect(),
    {
        Rect { min: self.min, max: self.max }
    }
}

} // verus!
