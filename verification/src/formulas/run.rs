//! Formulas on a sheet: the value of a formula as a code cell stores it.

use crate::formulas::eval::{evaluate, FormulaValue};
use crate::formulas::grammar::{formula_value, Block, FormulaError};
use crate::formulas::references::Frame;
use crate::grid::sheet::{Sheet, SheetView};
use crate::outside::{make_string, text_string};
use crate::position::Pos;
use crate::text::{fraction_text, fraction_to_text, integer_text, integer_to_string};
use crate::values::{Array, CellValue, CellValues, CodeRun, CodeRunResult, Value};
use vstd::prelude::*;
use vstd::string::StringExecFns;

verus! {

/// A block as the value of a code cell: one value for a block of one
/// cell, a block of values otherwise.
pub open spec fn to_value(b: Block) -> Value {
    if b.is_single() {
        Value::Single(b.values[0])
    } else {
        Value::Array(
            Array {
                width: b.width as u32,
                height: b.height as u32,
                values: CellValues::of(b.values),
            },
        )
    }
}

/// The frame of a formula that was written for the cell `parsed_at` and
/// is evaluated from the cell `evaluated_at`, which it may not name.
pub open spec fn frame_at(parsed_at: Pos, evaluated_at: Pos) -> Frame {
    Frame { parsed_at, evaluated_at, check_circular: true, columns_from_a: false }
}

/// The value of the formula `code` on the sheet `s`, as named in `frame`.
pub open spec fn formula_result(s: SheetView, frame: Frame, code: Seq<char>) -> Result<
    Value,
    FormulaError,
> {
    match formula_value(s, frame, code) {
        Ok(b) => Ok(to_value(b)),
        Err(e) => Err(e),
    }
}

/// What is said of a formula that has no value. Sizes of blocks are
/// written as height, then width.
pub open spec fn error_text(e: FormulaError) -> Seq<char> {
    match e {
        FormulaError::Syntax => "Syntax error"@,
        FormulaError::Overflow => "Number out of range"@,
        FormulaError::ExpectedNumber => "Expected a number"@,
        FormulaError::NegativeExponent => "Negative exponent"@,
        FormulaError::RangeTooLarge => "Too many cells"@,
        FormulaError::BadReference => "Bad cell reference"@,
        FormulaError::CircularReference => "Circular reference"@,
        FormulaError::ArraySizeMismatch {
            expected_height,
            expected_width,
            got_height,
            got_width,
        } => "Array size mismatch: expected ("@ + integer_text(expected_height as int) + ", "@
            + integer_text(expected_width as int) + "), got ("@ + integer_text(
            got_height as int,
        ) + ", "@ + integer_text(got_width as int) + ")"@,
    }
}

/// The run of the code cell at `pos` with the formula `code` on the
/// sheet `s`.
#[verifier::opaque]
pub open spec fn formula_run(s: SheetView, pos: Pos, code: Seq<char>) -> CodeRun {
    CodeRun {
        result: match formula_result(s, Frame::code_cell(pos), code) {
            Ok(v) => CodeRunResult::Output(v),
            Err(e) => CodeRunResult::Failed(text_string(error_text(e))),
        },
        spill_error: false,
    }
}

/// The text of a value: a number in decimal digits, with a point where
/// it is not whole, a text as it is, and nothing for an empty cell or a
/// block.
pub open spec fn value_text(v: Value) -> Seq<char> {
    match v {
        Value::Single(CellValue::Number(n)) => integer_text(n as int),
        Value::Single(CellValue::Text(t)) => t@,
        Value::Single(CellValue::Html(t)) => t@,
        Value::Single(CellValue::Code(c)) => c.code@,
        Value::Single(CellValue::Decimal { negative, whole, fraction }) => fraction_text(
            negative,
            whole as nat,
            fraction@,
        ),
        _ => Seq::empty(),
    }
}

/// The value of the formula `s` on `sheet`, as named in `frame`.
pub fn eval_in(sheet: &Sheet, frame: Frame, s: &str) -> (r: Result<Value, FormulaError>)
    requires
        sheet.wf(),
    ensures
        r == formula_result(sheet@, frame, s@),
{
    match evaluate(sheet, frame, s) {
        Ok(block) => Ok(block.into_value()),
        Err(e) => Err(e),
    }
}

/// The value on `sheet` of the formula `s`, which was written for the
/// cell `parsed_at`, when it is evaluated from the cell `evaluated_at`.
pub fn eval_at(sheet: &Sheet, s: &str, parsed_at: Pos, evaluated_at: Pos) -> (r: Result<
    Value,
    FormulaError,
>)
    requires
        sheet.wf(),
    ensures
        r == formula_result(sheet@, frame_at(parsed_at, evaluated_at), s@),
{
    eval_in(sheet, Frame { parsed_at, evaluated_at, check_circular: true, columns_from_a: false }, s)
}

/// The value on `sheet` of the formula `s`, written for the origin and
/// evaluated from it.
pub fn eval(sheet: &Sheet, s: &str) -> (r: Result<Value, FormulaError>)
    requires
        sheet.wf(),
    ensures
        r == formula_result(sheet@, frame_at(Pos { x: 0, y: 0 }, Pos { x: 0, y: 0 }), s@),
{
    eval_at(sheet, s, Pos { x: 0, y: 0 }, Pos { x: 0, y: 0 })
}

impl FormulaValue {
    /// The block as the value of a code cell.
    pub fn into_value(self) -> (r: Value)
        requires
            self@.wf(),
        ensures
            r == to_value(self@),
    {
        if self.width == 1 && self.height == 1 {
            Value::Single(self.values[0].clone())
        } else {
            Value::Array(
                Array {
                    width: self.width,
                    height: self.height,
                    values: CellValues::from_vec(&self.values),
                },
            )
        }
    }
}

/// The text of a value.
pub fn value_to_string(v: &Value) -> (r: String)
    ensures
        r@ == value_text(*v),
{
    match v {
        Value::Single(CellValue::Number(n)) => integer_to_string(*n),
        Value::Single(CellValue::Text(t)) => t.clone(),
        Value::Single(CellValue::Html(t)) => t.clone(),
        Value::Single(CellValue::Code(c)) => c.code.clone(),
        Value::Single(CellValue::Decimal { negative, whole, fraction }) => fraction_to_text(
            *negative,
            *whole,
            fraction.as_str(),
        ),
        _ => String::new(),
    }
}

/// The text of the value of the formula `s` on `sheet`, for a formula
/// that has a value.
pub fn eval_to_string(sheet: &Sheet, s: &str) -> (r: String)
    requires
        sheet.wf(),
        formula_result(sheet@, frame_at(Pos { x: 0, y: 0 }, Pos { x: 0, y: 0 }), s@) is Ok,
    ensures
        r@ == value_text(
            formula_result(sheet@, frame_at(Pos { x: 0, y: 0 }, Pos { x: 0, y: 0 }), s@)->Ok_0,
        ),
{
    match eval(sheet, s) {
        Ok(v) => value_to_string(&v),
        Err(_) => String::new(),
    }
}

/// Writes `n` in decimal digits at the end of `out`.
fn append_number(out: &mut String, n: u32)
    ensures
        final(out)@ == old(out)@ + integer_text(n as int),
{
    let digits = integer_to_string(n as i64);
    out.append(digits.as_str());
}

impl FormulaError {
    /// What is said of the error.
    pub fn message(&self) -> (r: String)
        ensures
            r == text_string(error_text(*self)),
            r@ == error_text(*self),
    {
        error_message(*self)
    }
}

/// What is said of a formula that has no value.
pub fn error_message(e: FormulaError) -> (r: String)
    ensures
        r == text_string(error_text(e)),
        r@ == error_text(e),
{
    match e {
        FormulaError::Syntax => make_string("Syntax error"),
        FormulaError::Overflow => make_string("Number out of range"),
        FormulaError::ExpectedNumber => make_string("Expected a number"),
        FormulaError::NegativeExponent => make_string("Negative exponent"),
        FormulaError::RangeTooLarge => make_string("Too many cells"),
        FormulaError::BadReference => make_string("Bad cell reference"),
        FormulaError::CircularReference => make_string("Circular reference"),
        FormulaError::ArraySizeMismatch {
            expected_height,
            expected_width,
            got_height,
            got_width,
        } => {
            let mut text = String::from_str("Array size mismatch: expected (");
            append_number(&mut text, expected_height);
            text.append(", ");
            append_number(&mut text, expected_width);
            text.append("), got (");
            append_number(&mut text, got_height);
            text.append(", ");
            append_number(&mut text, got_width);
            text.append(")");
            make_string(text.as_str())
        },
    }
}

/// The run of the code cell at `pos` with the formula `code` on `sheet`.
pub fn run_formula(sheet: &Sheet, pos: Pos, code: &str) -> (r: CodeRun)
    requires
        sheet.wf(),
    ensures
        r == formula_run(sheet@, pos, code@),
{
    proof {
        reveal(formula_run);
    }
    CodeRun {
        result: match eval_in(sheet, Frame::code_cell(pos), code) {
            Ok(v) => CodeRunResult::Output(v),
            Err(e) => CodeRunResult::Failed(error_message(e)),
        },
        spill_error: false,
    }
}

} // verus!
