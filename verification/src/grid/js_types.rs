//! What the cells of a sheet show on the screen.

use crate::grid::sheet::{Sheet, SheetView};
use crate::outside::{make_string, text_string};
use crate::pos_map::lookup;
use crate::position::{Pos, Rect};
use crate::text::{fraction_text, fraction_to_text, integer_text, integer_to_string};
use crate::values::{CellValue, CodeCellLanguage};
use vstd::prelude::*;

verus! {

/// To which side the text of a cell is set.
#[derive(Debug, PartialEq, Eq, Structural)]
pub enum CellAlign {
    Center,
    Left,
    Right,
}

impl Clone for CellAlign {
    fn clone(&self) -> (r: Self)
        ensures
            r == *self,
    {
        match self {
            CellAlign::Center => CellAlign::Center,
            CellAlign::Left => CellAlign::Left,
            CellAlign::Right => CellAlign::Right,
        }
    }
}

impl Copy for CellAlign {

}

/// What happens to text that is wider than its cell.
#[derive(Debug, PartialEq, Eq, Structural)]
pub enum CellWrap {
    Overflow,
    Wrap,
    Clip,
}

impl Clone for CellWrap {
    fn clone(&self) -> (r: Self)
        ensures
            r == *self,
    {
        match self {
            CellWrap::Overflow => CellWrap::Overflow,
            CellWrap::Wrap => CellWrap::Wrap,
            CellWrap::Clip => CellWrap::Clip,
        }
    }
}

impl Copy for CellWrap {

}

/// One cell as it is drawn.
#[derive(Debug, PartialEq, Eq)]
pub struct JsRenderCell {
    pub x: i64,
    pub y: i64,
    /// The language of the code cell that stands here.
    pub language: Option<CodeCellLanguage>,
    pub value: String,
    pub align: Option<CellAlign>,
    pub wrap: Option<CellWrap>,
    pub bold: Option<bool>,
    pub italic: Option<bool>,
    pub text_color: Option<String>,
}

/// A cell drawn at `pos` with the text `value` and no style.
pub open spec fn plain(pos: Pos, language: Option<CodeCellLanguage>, value: String) -> JsRenderCell {
    JsRenderCell {
        x: pos.x,
        y: pos.y,
        language,
        value,
        align: None,
        wrap: None,
        bold: None,
        italic: None,
        text_color: None,
    }
}

impl SheetView {
    /// The language of the code cell that stands at `pos`.
    pub open spec fn language_at(self, pos: Pos) -> Option<CodeCellLanguage> {
        match lookup(self.cells, pos) {
            Some(CellValue::Code(c)) => Some(c.language),
            _ => None,
        }
    }

    /// Whether the code cell at `pos` could not lay out its output.
    pub open spec fn spilled_at(self, pos: Pos) -> bool {
        match lookup(self.code_runs, pos) {
            Some(run) => run.spill_error,
            None => false,
        }
    }

    /// How the cell at `pos` is drawn, if anything is. A code cell that
    /// could not lay out its output says so in red italics. Otherwise
    /// the cell is drawn as what it shows: a number in decimal digits
    /// and set to the right, a text as it is, and an empty cell not at
    /// all.
    pub open spec fn render(self, pos: Pos) -> Option<JsRenderCell> {
        if self.spilled_at(pos) {
            Some(
                JsRenderCell {
                    italic: Some(true),
                    text_color: Some(text_string("red"@)),
                    ..plain(pos, self.language_at(pos), text_string(" SPILL"@))
                },
            )
        } else {
            match self.display(pos) {
                Some(CellValue::Number(n)) => Some(
                    JsRenderCell {
                        align: Some(CellAlign::Right),
                        ..plain(pos, self.language_at(pos), text_string(integer_text(n as int)))
                    },
                ),
                Some(CellValue::Decimal { negative, whole, fraction }) => Some(
                    JsRenderCell {
                        align: Some(CellAlign::Right),
                        ..plain(
                            pos,
                            self.language_at(pos),
                            text_string(fraction_text(negative, whole as nat, fraction@)),
                        )
                    },
                ),
                Some(CellValue::Text(t)) => Some(plain(pos, self.language_at(pos), t)),
                Some(CellValue::Html(t)) => Some(plain(pos, self.language_at(pos), t)),
                _ => None,
            }
        }
    }

    /// What is drawn of the first `n` cells of the row `y` from the
    /// column `x` on.
    pub open spec fn render_row(self, x: int, y: int, n: int) -> Seq<JsRenderCell>
        decreases n,
    {
        if n <= 0 {
            Seq::empty()
        } else {
            let before = self.render_row(x, y, n - 1);
            match self.render(Pos { x: (x + n - 1) as i64, y: y as i64 }) {
                Some(cell) => before.push(cell),
                None => before,
            }
        }
    }

    /// What is drawn of the first `m` rows of `rect`, row after row.
    pub open spec fn render_rows(self, rect: Rect, m: int) -> Seq<JsRenderCell>
        decreases m,
    {
        if m <= 0 {
            Seq::empty()
        } else {
            self.render_rows(rect, m - 1) + self.render_row(
                rect.min.x as int,
                rect.min.y + m - 1,
                rect.max.x - rect.min.x + 1,
            )
        }
    }

    /// What is drawn of the cells of `rect`, row after row and in each
    /// row from the left.
    pub open spec fn render_cells(self, rect: Rect) -> Seq<JsRenderCell> {
        self.render_rows(rect, rect.max.y - rect.min.y + 1)
    }
}

impl Sheet {
    /// The language of the code cell that stands at `pos`.
    fn language_at(&self, pos: Pos) -> (r: Option<CodeCellLanguage>)
        requires
            self.wf(),
        ensures
            r == self@.language_at(pos),
    {
        match self.get_cell_value_only(pos) {
            Some(CellValue::Code(c)) => Some(c.language),
            _ => None,
        }
    }

    /// How the cell at `pos` is drawn, if anything is.
    pub fn get_render_cell(&self, pos: Pos) -> (r: Option<JsRenderCell>)
        requires
            self.wf(),
        ensures
            r == self@.render(pos),
    {
        let language = self.language_at(pos);
        let spilled = match self.get_code_cell(pos) {
            Some(run) => run.spill_error,
            None => false,
        };
        if spilled {
            return Some(
                JsRenderCell {
                    x: pos.x,
                    y: pos.y,
                    language,
                    value: make_string(" SPILL"),
                    align: None,
                    wrap: None,
                    bold: None,
                    italic: Some(true),
                    text_color: Some(make_string("red")),
                },
            );
        }
        let (value, align) = match self.get_cell_value(pos) {
            Some(CellValue::Number(n)) => {
                let digits = integer_to_string(n);
                (make_string(digits.as_str()), Some(CellAlign::Right))
            },
            Some(CellValue::Decimal { negative, whole, fraction }) => {
                let digits = fraction_to_text(negative, whole, fraction.as_str());
                (make_string(digits.as_str()), Some(CellAlign::Right))
            },
            Some(CellValue::Text(t)) => (t, None),
            Some(CellValue::Html(t)) => (t, None),
            _ => {
                return None;
            },
        };
        Some(
            JsRenderCell {
                x: pos.x,
                y: pos.y,
                language,
                value,
                align,
                wrap: None,
                bold: None,
                italic: None,
                text_color: None,
            },
        )
    }

    /// How the cells of `rect` are drawn, row after row and in each row
    /// from the left; a cell that shows nothing is left out.
    pub fn get_render_cells(&self, rect: Rect) -> (r: Vec<JsRenderCell>)
        requires
            self.wf(),
        ensures
            r@ == self@.render_cells(rect),
    {
        let mut out: Vec<JsRenderCell> = Vec::new();
        let w: i128 = rect.max.x as i128 - rect.min.x as i128 + 1;
        let h: i128 = rect.max.y as i128 - rect.min.y as i128 + 1;
        let mut dy: i128 = 0;
        while dy < h
            invariant
                self.wf(),
                0 <= dy,
                dy <= h || h <= 0,
                h <= 0 ==> dy == 0,
                w == rect.max.x - rect.min.x + 1,
                h == rect.max.y - rect.min.y + 1,
                out@ == self@.render_rows(rect, dy as int),
            decreases h - dy,
        {
            let ghost before = out@;
            let mut dx: i128 = 0;
            while dx < w
                invariant
                    self.wf(),
                    0 <= dx,
                    dx <= w || w <= 0,
                    w <= 0 ==> dx == 0,
                    0 <= dy < h,
                    w == rect.max.x - rect.min.x + 1,
                    h == rect.max.y - rect.min.y + 1,
                    out@ == before + self@.render_row(
                        rect.min.x as int,
                        rect.min.y + dy,
                        dx as int,
                    ),
                decreases w - dx,
            {
                let pos = Pos { x: (rect.min.x as i128 + dx) as i64, y: (rect.min.y as i128 + dy) as i64 };
                match self.get_render_cell(pos) {
                    Some(cell) => {
                        out.push(cell);
                    },
                    None => {},
                }
                dx += 1;
                assert(out@ =~= before + self@.render_row(
                    rect.min.x as int,
                    rect.min.y + dy,
                    dx as int,
                ));
            }
            assert(self@.render_row(rect.min.x as int, rect.min.y + dy, dx as int)
                == self@.render_row(rect.min.x as int, rect.min.y + dy, w as int)) by {
                if w <= 0 {
                    assert(self@.render_row(rect.min.x as int, rect.min.y + dy, w as int)
                        =~= Seq::empty());
                    assert(self@.render_row(rect.min.x as int, rect.min.y + dy, 0) =~= Seq::empty());
                }
            }
            dy += 1;
        }
        assert(self@.render_rows(rect, dy as int) == self@.render_rows(rect, h as int)) by {
            if h <= 0 {
                assert(self@.render_rows(rect, h as int) =~= Seq::empty());
                assert(self@.render_rows(rect, 0) =~= Seq::empty());
            }
        }
        out
    }
}

} // verus!
