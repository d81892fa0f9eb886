//! Cell values and the results of running code cells.

use crate::position::{Pos, Rect};
use vstd::prelude::*;

verus! {

/// The language a code cell is written in.
#[derive(Debug, PartialEq, Eq, Structural, Hash)]
pub enum CodeCellLanguage {
    Python,
    Formula,
    Javascript,
}

impl Clone for CodeCellLanguage {
    fn clone(&self) -> (r: Self)
        ensures
            r == *self,
    {
        match self {
            CodeCellLanguage::Python => CodeCellLanguage::Python,
            CodeCellLanguage::Formula => CodeCellLanguage::Formula,
            CodeCellLanguage::Javascript => CodeCellLanguage::Javascript,
        }
    }
}

impl Copy for CodeCellLanguage {

}

impl CodeCellLanguage {
    /// Formulas are evaluated at once; the other languages run outside the
    /// core, which has to wait for their result.
    pub open spec fn spec_is_async(&self) -> bool {
        !(*self === CodeCellLanguage::Formula)
    }

    #[verifier::when_used_as_spec(spec_is_async)]
    pub fn is_async(&self) -> (r: bool)
        ensures
            r == self.spec_is_async(),
    {
        match self {
            CodeCellLanguage::Formula => false,
            _ => true,
        }
    }
}

/// The source of a code cell.
#[derive(Debug, PartialEq, Eq)]
pub struct CodeCellValue {
    pub language: CodeCellLanguage,
    pub code: String,
}

impl Clone for CodeCellValue {
    fn clone(&self) -> (r: Self)
        ensures
            r == *self,
    {
        CodeCellValue { language: self.language, code: self.code.clone() }
    }
}

/// What a cell holds.
#[derive(Debug, PartialEq, Eq)]
pub enum CellValue {
    Blank,
    Text(String),
    Number(i64),
    Html(String),
    Code(CodeCellValue),
    /// A number that is not whole: its sign, the part before the point
    /// and the digits behind it.
    Decimal { negative: bool, whole: u64, fraction: String },
}

impl Clone for CellValue {
    fn clone(&self) -> (r: Self)
        ensures
            r == *self,
    {
        match self {
            CellValue::Blank => CellValue::Blank,
            CellValue::Text(s) => CellValue::Text(s.clone()),
            CellValue::Number(n) => CellValue::Number(*n),
            CellValue::Html(s) => CellValue::Html(s.clone()),
            CellValue::Code(c) => CellValue::Code(c.clone()),
            CellValue::Decimal { negative, whole, fraction } => CellValue::Decimal {
                negative: *negative,
                whole: *whole,
                fraction: fraction.clone(),
            },
        }
    }
}

impl CellValue {
    /// Whether the value stands for an empty cell.
    pub open spec fn spec_is_blank(&self) -> bool {
        *self is Blank
    }

    #[verifier::when_used_as_spec(spec_is_blank)]
    pub fn is_blank(&self) -> (r: bool)
        ensures
            r == self.spec_is_blank(),
    {
        match self {
            CellValue::Blank => true,
            _ => false,
        }
    }

    /// Whether the value is HTML.
    pub open spec fn spec_is_html(&self) -> bool {
        *self is Html
    }

    #[verifier::when_used_as_spec(spec_is_html)]
    pub fn is_html(&self) -> (r: bool)
        ensures
            r == self.spec_is_html(),
    {
        match self {
            CellValue::Html(_) => true,
            _ => false,
        }
    }

    /// Whether the value is the source of a code cell.
    pub open spec fn spec_is_code(&self) -> bool {
        *self is Code
    }

    #[verifier::when_used_as_spec(spec_is_code)]
    pub fn is_code(&self) -> (r: bool)
        ensures
            r == self.spec_is_code(),
    {
        match self {
            CellValue::Code(_) => true,
            _ => false,
        }
    }

    /// The value that the text `s` stands for when a user types it into a
    /// cell: nothing for empty text, a number where the text spells a
    /// whole number that fits, and the text itself otherwise.
    pub open spec fn spec_from_text(s: String) -> CellValue {
        if s@.len() == 0 {
            CellValue::Blank
        } else {
            match crate::text::integer_i64(s@) {
                Some(n) => CellValue::Number(n),
                None => CellValue::Text(s),
            }
        }
    }

    #[verifier::when_used_as_spec(spec_from_text)]
    pub fn from_text(s: String) -> (r: CellValue)
        ensures
            r == CellValue::spec_from_text(s),
    {
        if s.as_str().unicode_len() == 0 {
            CellValue::Blank
        } else {
            match crate::text::parse_integer(s.as_str()) {
                Some(n) => CellValue::Number(n),
                None => CellValue::Text(s),
            }
        }
    }

    /// A blank value stands for an empty cell, which a sheet does not store.
    pub open spec fn stored(self) -> Option<CellValue> {
        if self is Blank {
            None
        } else {
            Some(self)
        }
    }

    /// The value of a cell that may be empty.
    pub open spec fn or_blank(v: Option<CellValue>) -> CellValue {
        match v {
            Some(v) => v,
            None => CellValue::Blank,
        }
    }
}

/// The size, in pixels, that an HTML cell is shown at.
#[derive(Debug, PartialEq, Eq, Structural, Hash)]
pub struct OutputSize {
    pub w: i64,
    pub h: i64,
}

impl Clone for OutputSize {
    fn clone(&self) -> (r: Self)
        ensures
            r == *self,
    {
        OutputSize { w: self.w, h: self.h }
    }
}

impl Copy for OutputSize {

}

/// A list of cell values.
#[derive(Debug, PartialEq, Eq)]
pub enum CellValues {
    Nil,
    Cons(CellValue, Box<CellValues>),
}

impl CellValues {
    /// The values in order.
    pub open spec fn seq(self) -> Seq<CellValue>
        decreases self,
    {
        match self {
            CellValues::Nil => Seq::empty(),
            CellValues::Cons(v, rest) => seq![v] + rest.seq(),
        }
    }

    /// A copy of the list.
    pub fn cloned(&self) -> (r: Self)
        ensures
            r == *self,
        decreases *self,
    {
        match self {
            CellValues::Nil => CellValues::Nil,
            CellValues::Cons(v, rest) => CellValues::Cons(v.clone(), Box::new(rest.cloned())),
        }
    }

    /// The number of values.
    pub fn len(&self) -> (r: usize)
        requires
            self.seq().len() <= usize::MAX,
        ensures
            r == self.seq().len(),
        decreases *self,
    {
        match self {
            CellValues::Nil => 0,
            CellValues::Cons(_, rest) => 1 + rest.len(),
        }
    }

    /// The value at `index`, if the list is that long.
    pub fn get(&self, index: u64) -> (r: Option<&CellValue>)
        ensures
            index < self.seq().len() ==> r == Some(&self.seq()[index as int]),
            index >= self.seq().len() ==> r is None,
        decreases *self,
    {
        match self {
            CellValues::Nil => None,
            CellValues::Cons(v, rest) => {
                if index == 0 {
                    Some(v)
                } else {
                    rest.get(index - 1)
                }
            },
        }
    }

    /// The list that holds the values `s`, in order.
    pub open spec fn of(s: Seq<CellValue>) -> CellValues
        decreases s.len(),
    {
        if s.len() == 0 {
            CellValues::Nil
        } else {
            CellValues::Cons(s[0], Box::new(CellValues::of(s.drop_first())))
        }
    }

    /// The list of the elements of `values`, in order.
    pub fn from_vec(values: &Vec<CellValue>) -> (r: Self)
        ensures
            r.seq() == values@,
            r == CellValues::of(values@),
    {
        let mut list = CellValues::Nil;
        let mut i: usize = values.len();
        assert(values@.subrange(i as int, values.len() as int).len() == 0);
        while i > 0
            invariant
                i <= values.len(),
                list.seq() == values@.subrange(i as int, values.len() as int),
                list == CellValues::of(values@.subrange(i as int, values.len() as int)),
            decreases i,
        {
            i -= 1;
            list = CellValues::Cons(values[i].clone(), Box::new(list));
            let ghost part = values@.subrange(i as int, values.len() as int);
            assert(list.seq() =~= part);
            assert(part.drop_first() =~= values@.subrange(i + 1, values.len() as int));
            assert(part[0] == values@[i as int]);
        }
        assert(values@.subrange(0, values.len() as int) =~= values@);
        list
    }
}

impl Clone for CellValues {
    fn clone(&self) -> (r: Self)
        ensures
            r == *self,
    {
        self.cloned()
    }
}

/// A rectangular block of values, stored row by row.
#[derive(Debug, PartialEq, Eq)]
pub struct Array {
    pub width: u32,
    pub height: u32,
    pub values: CellValues,
}

impl Clone for Array {
    fn clone(&self) -> (r: Self)
        ensures
            r == *self,
    {
        Array { width: self.width, height: self.height, values: self.values.clone() }
    }
}

impl Array {
    /// The value in column `x` and row `y` of the block.
    pub open spec fn spec_get(&self, x: u32, y: u32) -> Option<CellValue> {
        let index = y as int * self.width as int + x as int;
        if x < self.width && y < self.height && index < self.values.seq().len() {
            Some(self.values.seq()[index])
        } else {
            None
        }
    }

    /// The value in column `x` and row `y` of the block.
    pub fn get(&self, x: u32, y: u32) -> (r: Option<&CellValue>)
        ensures
            match r {
                Some(v) => self.spec_get(x, y) == Some(*v),
                None => self.spec_get(x, y) is None,
            },
    {
        if x < self.width && y < self.height {
            assert(y as int * self.width as int <= 0xffff_ffff * 0xffff_ffff) by (nonlinear_arith)
                requires
                    0 <= y as int <= 0xffff_ffff,
                    0 <= self.width as int <= 0xffff_ffff,
            ;
            assert(0 <= y as int * self.width as int) by (nonlinear_arith)
                requires
                    0 <= y as int,
                    0 <= self.width as int,
            ;
            let index: u64 = y as u64 * self.width as u64 + x as u64;
            self.values.get(index)
        } else {
            None
        }
    }
}

/// What a code cell computed: one value, or a block that spills over the
/// cells to the right of and below the code cell.
#[derive(Debug, PartialEq, Eq)]
pub enum Value {
    Single(CellValue),
    Array(Array),
}

impl Clone for Value {
    fn clone(&self) -> (r: Self)
        ensures
            r == *self,
    {
        match self {
            Value::Single(v) => Value::Single(v.clone()),
            Value::Array(a) => Value::Array(a.clone()),
        }
    }
}

/// How a run of a code cell ended.
#[derive(Debug, PartialEq, Eq)]
pub enum CodeRunResult {
    Output(Value),
    Failed(String),
}

impl Clone for CodeRunResult {
    fn clone(&self) -> (r: Self)
        ensures
            r == *self,
    {
        match self {
            CodeRunResult::Output(v) => CodeRunResult::Output(v.clone()),
            CodeRunResult::Failed(e) => CodeRunResult::Failed(e.clone()),
        }
    }
}

/// The outcome of running a code cell, as the sheet keeps it.
#[derive(Debug, PartialEq, Eq)]
pub struct CodeRun {
    pub result: CodeRunResult,
    /// Set when the output could not be laid out because a cell it would
    /// cover is taken; the run then shows as a single cell.
    pub spill_error: bool,
}

impl Clone for CodeRun {
    fn clone(&self) -> (r: Self)
        ensures
            r == *self,
    {
        CodeRun { result: self.result.clone(), spill_error: self.spill_error }
    }
}

/// `a + b - 1`, kept within the range of `i64`.
pub open spec fn span_end(a: i64, b: u32) -> i64 {
    if b == 0 {
        a
    } else if a + b - 1 > i64::MAX {
        i64::MAX
    } else {
        (a + b - 1) as i64
    }
}

impl CodeRun {
    /// The width and height that the output asks for, whether or not it
    /// could be laid out.
    pub open spec fn spec_output_size(&self) -> (u32, u32) {
        match self.result {
            CodeRunResult::Output(Value::Array(a)) => (a.width, a.height),
            _ => (1, 1),
        }
    }

    #[verifier::when_used_as_spec(spec_output_size)]
    pub fn output_size(&self) -> (r: (u32, u32))
        ensures
            r == self.spec_output_size(),
    {
        match &self.result {
            CodeRunResult::Output(Value::Array(a)) => (a.width, a.height),
            _ => (1, 1),
        }
    }

    /// The cells that the run anchored at `pos` covers. With `ignore_spill`
    /// the rectangle is the one the output asks for; without it a run with a
    /// spill error covers its own cell only.
    pub open spec fn spec_output_rect(&self, pos: Pos, ignore_spill: bool) -> Rect {
        if self.spill_error && !ignore_spill {
            Rect { min: pos, max: pos }
        } else {
            let (w, h) = self.spec_output_size();
            Rect { min: pos, max: Pos { x: span_end(pos.x, w), y: span_end(pos.y, h) } }
        }
    }

    #[verifier::when_used_as_spec(spec_output_rect)]
    pub fn output_rect(&self, pos: Pos, ignore_spill: bool) -> (r: Rect)
        ensures
            r == self.spec_output_rect(pos, ignore_spill),
    {
        if self.spill_error && !ignore_spill {
            Rect { min: pos, max: pos }
        } else {
            let (w, h) = self.output_size();
            Rect { min: pos, max: Pos { x: end_of_span(pos.x, w), y: end_of_span(pos.y, h) } }
        }
    }

    /// The value that the run shows `dx` columns and `dy` rows from its anchor.
    pub open spec fn spec_get_output_value(&self, dx: u32, dy: u32) -> Option<CellValue> {
        if self.spill_error {
            None
        } else {
            match self.result {
                CodeRunResult::Output(Value::Single(v)) => if dx == 0 && dy == 0 {
                    v.stored()
                } else {
                    None
                },
                CodeRunResult::Output(Value::Array(a)) => match a.spec_get(dx, dy) {
                    Some(v) => v.stored(),
                    None => None,
                },
                CodeRunResult::Failed(_) => None,
            }
        }
    }

    /// The value that the run shows `dx` columns and `dy` rows from its anchor.
    pub fn get_output_value(&self, dx: u32, dy: u32) -> (r: Option<CellValue>)
        ensures
            r == self.spec_get_output_value(dx, dy),
    {
        if self.spill_error {
            return None;
        }
        match &self.result {
            CodeRunResult::Output(Value::Single(v)) => {
                if dx == 0 && dy == 0 && !v.is_blank() {
                    Some(v.clone())
                } else {
                    None
                }
            },
            CodeRunResult::Output(Value::Array(a)) => {
                match a.get(dx, dy) {
                    Some(v) => {
                        if v.is_blank() {
                            None
                        } else {
                            Some(v.clone())
                        }
                    },
                    None => None,
                }
            },
            CodeRunResult::Failed(_) => None,
        }
    }

    /// Whether the output could not be laid out.
    pub open spec fn spec_has_spill_error(&self) -> bool {
        self.spill_error
    }

    #[verifier::when_used_as_spec(spec_has_spill_error)]
    pub fn has_spill_error(&self) -> (r: bool)
        ensures
            r == self.spill_error,
    {
        self.spill_error
    }
}

/// The last coordinate of a span of `b` cells that starts at `a`.
pub fn end_of_span(a: i64, b: u32) -> (r: i64)
    ensures
        r == span_end(a, b),
{
    if b == 0 {
        a
    } else {
        let d: i64 = (b - 1) as i64;
        if a > i64::MAX - d {
            i64::MAX
        } else {
            a + d
        }
    }
}

} // verus!
