use quadratic_core::formulas::grammar::FormulaError;
use quadratic_core::formulas::run::{eval, eval_at, eval_to_string, value_to_string};
use quadratic_core::grid::sheet::Sheet;
use quadratic_core::position::{Pos, SheetId};
use quadratic_core::values::{Array, CellValue, CellValues, Value};

fn empty_sheet() -> Sheet {
    Sheet::new(SheetId { id: 1 })
}

/// The value of a formula that is written for a cell far from the ones
/// it names, and evaluated from there.
fn read(sheet: &Sheet, s: &str) -> Result<Value, FormulaError> {
    eval_at(sheet, s, Pos { x: 50, y: 50 }, Pos { x: 50, y: 50 })
}

#[test]
fn test_formula_cell_ref() {
    // The formula is written for C4 and evaluated from Z0, so the cells
    // that it names move along.
    let mut sheet = empty_sheet();
    sheet.set_cell_value(Pos { x: 3, y: 4 }, CellValue::Number(1)); // $C$4 -> C4
    sheet.set_cell_value(Pos { x: 1, y: -4 }, CellValue::Number(10)); // $A0  -> An4
    sheet.set_cell_value(Pos { x: 1, y: -6 }, CellValue::Number(100)); // D$n6 -> An6
    sheet.set_cell_value(Pos { x: -2, y: -4 }, CellValue::Number(1000)); // A0   -> ZBn4
    sheet.set_cell_value(Pos { x: -5, y: -2 }, CellValue::Number(10000)); // ZB2  -> ZEn2
    let form = "SUM($C$4, $A0, D$n6, A0, ZB2)";

    assert_eq!(
        FormulaError::CircularReference,
        eval_at(&sheet, form, Pos { x: 3, y: 4 }, Pos { x: 3, y: 4 }).unwrap_err(),
    );

    assert_eq!(
        "11111".to_string(),
        value_to_string(&eval_at(&sheet, form, Pos { x: 3, y: 4 }, Pos { x: 0, y: 0 }).unwrap()),
    );
}

#[test]
fn test_formula_if() {
    let mut sheet = empty_sheet();
    sheet.set_cell_value(Pos { x: 0, y: 1 }, CellValue::Number(2));
    sheet.set_cell_value(Pos { x: 1, y: 1 }, CellValue::Number(16));
    let form = "IF(Z1=2, 'yep', 'nope')";

    assert_eq!(
        "yep".to_string(),
        value_to_string(&eval_at(&sheet, form, Pos { x: 0, y: 0 }, Pos { x: 0, y: 0 }).unwrap()),
    );
    assert_eq!(
        "nope".to_string(),
        value_to_string(&eval_at(&sheet, form, Pos { x: 0, y: 0 }, Pos { x: 1, y: 0 }).unwrap()),
    );
}

#[test]
fn test_formula_average() {
    let mut sheet = empty_sheet();
    for x in 1..=3 {
        for y in 1..=3 {
            sheet.set_cell_value(Pos { x, y }, CellValue::Number(x * 3 + y)); // 4 ... 12
        }
    }
    let form = "AVERAGE(3, A1:C3)";

    assert_eq!(
        "7.5".to_string(),
        value_to_string(
            &eval_at(&sheet, form, Pos { x: -1, y: -1 }, Pos { x: -1, y: -1 }).unwrap()
        ),
    );
}

#[test]
fn averages_are_whole_or_have_digits_behind_the_point() {
    let g = numbered_sheet();
    assert_eq!(eval(&g, "AVERAGE(2, 4)"), Ok(Value::Single(CellValue::Number(3))));
    assert_eq!(eval(&g, "AVERAGE(-2, -4)"), Ok(Value::Single(CellValue::Number(-3))));
    assert_eq!(eval(&g, "AVERAGE(A1:B2)"), Ok(Value::Single(CellValue::Decimal {
        negative: false,
        whole: 16,
        fraction: "5".into(),
    })));
    assert_eq!(eval_to_string(&g, "AVERAGE(1, 2)"), "1.5");
    assert_eq!(eval_to_string(&g, "AVERAGE(-1, 0)"), "-0.5");
    assert_eq!(eval_to_string(&g, "AVERAGE(1, 0, 0)"), "0.333333333");
    assert_eq!(eval_to_string(&g, "AVERAGE(2, 0, 0)"), "0.666666666");
    assert_eq!(eval_to_string(&g, "AVERAGE(1, 0, 0, 0, 0, 0, 0, 0)"), "0.125");
    assert_eq!(eval_to_string(&g, "AVERAGE(-10, 0, 0, 0)"), "-2.5");
    assert_eq!(eval_to_string(&g, "AVERAGE(1, Y9:Y28)"), "0.047619047");
    assert_eq!(eval_to_string(&g, "AVERAGE(101, 0, 0, 0, 0, 0, 0, 0, 0, 0) & '%'"), "10.1%");
    assert_eq!(eval(&g, "AVERAGE('a', 1)"), Err(FormulaError::ExpectedNumber));
    assert_eq!(eval(&g, "AVERAGE()"), Err(FormulaError::Syntax));
    assert_eq!(
        eval(&g, "AVERAGE(9223372036854775807, 1)"),
        Err(FormulaError::Overflow)
    );
    // a number that is not whole is no operand
    assert_eq!(eval(&g, "AVERAGE(1, 2) + 1"), Err(FormulaError::ExpectedNumber));
    assert_eq!(
        eval(&g, "AVERAGE(1, 2) = AVERAGE(3, 0)"),
        Ok(Value::Single(CellValue::Number(1)))
    );
}

#[test]
fn functions_and_comparisons() {
    let g = numbered_sheet();
    assert_eq!(eval(&g, "SUM(1, 2, 3)"), Ok(Value::Single(CellValue::Number(6))));
    assert_eq!(eval(&g, " SUM( A1:B2 , 5 ) * 2"), Ok(Value::Single(CellValue::Number(142))));
    assert_eq!(eval(&g, "SUM(A1:B2, Y9)"), Ok(Value::Single(CellValue::Number(66))));
    assert_eq!(eval(&g, "SUM('a')"), Err(FormulaError::ExpectedNumber));
    assert_eq!(eval(&g, "SUM()"), Err(FormulaError::Syntax));
    assert_eq!(eval(&g, "SUM(1, 2"), Err(FormulaError::Syntax));
    assert_eq!(eval(&g, "SUM(1,)"), Err(FormulaError::Syntax));
    assert_eq!(eval(&g, "SUM(9223372036854775807, 1)"), Err(FormulaError::Overflow));
    assert_eq!(eval(&g, "MAX(1, 2)"), Err(FormulaError::Syntax));
    assert_eq!(eval(&g, "1 = 1"), Ok(Value::Single(CellValue::Number(1))));
    assert_eq!(eval(&g, "1 + 1 = 3"), Ok(Value::Single(CellValue::Number(0))));
    assert_eq!(eval(&g, "'a' = 'a'"), Ok(Value::Single(CellValue::Number(1))));
    assert_eq!(eval(&g, "'1' = 1"), Ok(Value::Single(CellValue::Number(0))));
    assert_eq!(eval(&g, "Y9 = 0"), Ok(Value::Single(CellValue::Number(1))));
    assert_eq!(eval(&g, "2 < 3"), Ok(Value::Single(CellValue::Number(1))));
    assert_eq!(eval(&g, "2 > 3"), Ok(Value::Single(CellValue::Number(0))));
    assert_eq!(eval(&g, "'a' < 3"), Err(FormulaError::ExpectedNumber));
    assert_eq!(eval(&g, "1 = 1 = 1"), Err(FormulaError::Syntax));
    assert_eq!(block(vec![vec![1, 0]]), eval(&g, "A1:B1 = 11").unwrap());
    assert_eq!(eval(&g, "IF(A1 > 10, A1:B1, 0)"), Ok(block(vec![vec![11, 21]])));
    assert_eq!(eval(&g, "IF(0, 1, 'no')"), Ok(Value::Single(CellValue::Text("no".into()))));
    assert_eq!(eval(&g, "IF('a', 1, 2)"), Err(FormulaError::ExpectedNumber));
    assert_eq!(eval(&g, "IF(A1:B1, 1, 2)"), Err(FormulaError::ExpectedNumber));
    assert_eq!(eval(&g, "IF(1, 2)"), Err(FormulaError::Syntax));
    assert_eq!(eval(&g, "IF(1, 2, 3, 4)"), Err(FormulaError::Syntax));
    // both values are evaluated, whichever is given
    assert_eq!(eval(&g, "IF(1, 2, 'a' + 1)"), Err(FormulaError::ExpectedNumber));
}

#[test]
fn names_move_with_the_place_of_evaluation() {
    let g = numbered_sheet();
    let at = |x: i64, y: i64| Pos { x, y };
    // written for B2, evaluated one column to the right and two rows down
    assert_eq!(
        eval_at(&g, "A1", at(2, 2), at(3, 4)),
        Ok(Value::Single(CellValue::Number(23)))
    );
    assert_eq!(
        eval_at(&g, "$A1", at(2, 2), at(3, 4)),
        Ok(Value::Single(CellValue::Number(13)))
    );
    assert_eq!(
        eval_at(&g, "A$1", at(2, 2), at(3, 4)),
        Ok(Value::Single(CellValue::Number(21)))
    );
    assert_eq!(
        eval_at(&g, "$A$1", at(2, 2), at(3, 4)),
        Ok(Value::Single(CellValue::Number(11)))
    );
    assert_eq!(
        eval_at(&g, "A1:$B$2", at(0, 0), at(1, 0)),
        Ok(block(vec![vec![21], vec![22]]))
    );
    // a formula may not name the cell it is evaluated from
    assert_eq!(eval(&g, "Z0"), Err(FormulaError::CircularReference));
    assert_eq!(eval(&g, "ZAn1:A1"), Err(FormulaError::CircularReference));
    assert_eq!(eval_at(&g, "A1", at(0, 0), at(0, 0)), Ok(Value::Single(CellValue::Number(11))));
    assert_eq!(eval_at(&g, "A1", at(1, 1), at(1, 1)), Err(FormulaError::CircularReference));
    assert_eq!(eval_at(&g, "A1", at(1, 1), at(2, 2)), Err(FormulaError::CircularReference));
    // nor a cell beyond the grid
    assert_eq!(
        eval_at(&g, "A1", at(0, 0), at(i64::MAX, 0)),
        Err(FormulaError::BadReference)
    );
    assert_eq!(
        eval_at(&g, "$A1", at(0, 0), at(i64::MAX, 0)),
        Ok(Value::Single(CellValue::Number(11)))
    );
    assert_eq!(FormulaError::BadReference.message(), "Bad cell reference");
    assert_eq!(FormulaError::CircularReference.message(), "Circular reference");
}

#[test]
fn test_formula_math_operators() {
    assert_eq!(
        (1 * -6 + -2 - 1 * (-3_i32).pow(2_u32.pow(3))).to_string(),
        eval_to_string(&empty_sheet(), "1 * -6 + -2 - 1 * -3 ^ 2 ^ 3"),
    );
}

#[test]
fn test_formula_concat() {
    assert_eq!(
        "Hello, 14000605 worlds!".to_string(),
        eval_to_string(&empty_sheet(), "'Hello, ' & 14000605 & ' worlds!'"),
    );
}

#[test]
fn formula_errors() {
    let sheet = empty_sheet();
    assert_eq!(eval(&sheet, "1 +"), Err(FormulaError::Syntax));
    assert_eq!(eval(&sheet, "(1 + 2"), Err(FormulaError::Syntax));
    assert_eq!(eval(&sheet, "1 2"), Err(FormulaError::Syntax));
    assert_eq!(eval(&sheet, "'a' + 1"), Err(FormulaError::ExpectedNumber));
    assert_eq!(eval(&sheet, "2 ^ -1"), Err(FormulaError::NegativeExponent));
    assert_eq!(eval(&sheet, "2 ^ 63"), Err(FormulaError::Overflow));
    assert_eq!(
        eval(&sheet, "9223372036854775807 + 1"),
        Err(FormulaError::Overflow)
    );
    assert_eq!(eval(&sheet, "A0:YYYYY0"), Err(FormulaError::RangeTooLarge));
    assert_eq!(eval(&sheet, "A0:A1000000"), Err(FormulaError::RangeTooLarge));
}

#[test]
fn formula_values() {
    let sheet = empty_sheet();
    assert_eq!(
        eval(&sheet, " ( 1 + 2 ) * 3 "),
        Ok(Value::Single(CellValue::Number(9)))
    );
    assert_eq!(
        eval(&sheet, "2 ^ 62"),
        Ok(Value::Single(CellValue::Number(1 << 62)))
    );
    assert_eq!(eval(&sheet, "-1 ^ 3"), Ok(Value::Single(CellValue::Number(-1))));
    assert_eq!(eval(&sheet, "0 ^ 0"), Ok(Value::Single(CellValue::Number(1))));
    assert_eq!(
        eval(&sheet, "\"a\" & 'b'"),
        Ok(Value::Single(CellValue::Text("ab".to_string())))
    );
    assert_eq!(eval(&sheet, "B7"), Ok(Value::Single(CellValue::Blank)));
}

#[test]
fn formula_texts_may_hold_any_character() {
    let sheet = empty_sheet();
    assert_eq!(
        eval(&sheet, "'h\u{e9}llo \u{1F600}' & \"-\" & -0"),
        Ok(Value::Single(CellValue::Text("h\u{e9}llo \u{1F600}-0".to_string())))
    );
    assert_eq!(eval(&sheet, "'open"), Err(FormulaError::Syntax));
    assert_eq!(eval(&sheet, ""), Err(FormulaError::Syntax));
    assert_eq!(eval(&sheet, "\u{e9}"), Err(FormulaError::Syntax));
    assert_eq!(eval(&sheet, "--3"), Ok(Value::Single(CellValue::Number(3))));
    assert_eq!(eval(&sheet, "2 - -3 - 4"), Ok(Value::Single(CellValue::Number(1))));
    assert_eq!(eval(&sheet, "2 ^ 3 ^ 2"), Ok(Value::Single(CellValue::Number(512))));
    assert_eq!(eval(&sheet, "(2 ^ 3) ^ 2"), Ok(Value::Single(CellValue::Number(64))));
    assert_eq!(eval(&sheet, "1 & 2 + 3"), Ok(Value::Single(CellValue::Text("15".to_string()))));
    assert_eq!(eval(&sheet, "1 + 'a' + (2"), Err(FormulaError::ExpectedNumber));
}

#[test]
fn formula_references_read_the_sheet() {
    let mut sheet = empty_sheet();
    sheet.set_cell_value(Pos { x: 0, y: 0 }, CellValue::Number(4));
    sheet.set_cell_value(Pos { x: 27, y: -3 }, CellValue::Text("t".into()));
    sheet.set_cell_value(Pos { x: -2, y: 5 }, CellValue::Number(9));
    // `Z` is column 0, `A` column 1, `AA` column 27, `ZB` column -2
    assert_eq!(read(&sheet, " Z0 "), Ok(Value::Single(CellValue::Number(4))));
    assert_eq!(read(&sheet, "$Z$0"), Ok(Value::Single(CellValue::Number(4))));
    assert_eq!(read(&sheet, "AAn3"), Ok(Value::Single(CellValue::Text("t".into()))));
    assert_eq!(read(&sheet, "ZB5"), Ok(Value::Single(CellValue::Number(9))));
    assert_eq!(read(&sheet, "A0"), Ok(Value::Single(CellValue::Blank)));
    match read(&sheet, "A1:Z0") {
        Ok(Value::Array(block)) => {
            assert_eq!((block.width, block.height), (2, 2));
            assert_eq!(block.get(0, 0), Some(&CellValue::Number(4)));
            assert_eq!(block.get(1, 1), Some(&CellValue::Blank));
            assert_eq!(block.get(2, 0), None);
        }
        other => panic!("{other:?}"),
    }
    assert_eq!(read(&sheet, "A0:"), Err(FormulaError::Syntax));
    assert_eq!(read(&sheet, "a0"), Err(FormulaError::Syntax));
    assert_eq!(read(&sheet, "Z"), Err(FormulaError::Syntax));
    // references inside expressions; an empty cell counts as 0 and as no text
    assert_eq!(read(&sheet, "Z0 + 1"), Ok(Value::Single(CellValue::Number(5))));
    assert_eq!(read(&sheet, "Z0 * ZB5 - A0"), Ok(Value::Single(CellValue::Number(36))));
    assert_eq!(read(&sheet, "A0 & Z0 & AAn3"), Ok(Value::Single(CellValue::Text("4t".into()))));
    assert_eq!(read(&sheet, "AAn3 + 1"), Err(FormulaError::ExpectedNumber));
}

/// A sheet whose cell in column `x` and row `y` holds `x * 10 + y`, as far
/// as the formulas of these tests read it.
fn numbered_sheet() -> Sheet {
    let mut sheet = empty_sheet();
    for x in 1..=4 {
        for y in 1..=5 {
            sheet.set_cell_value(Pos { x, y }, CellValue::Number(x * 10 + y));
        }
    }
    sheet
}

/// The block with the given rows.
fn block(rows: Vec<Vec<i64>>) -> Value {
    let values: Vec<CellValue> =
        rows.iter().flatten().map(|n| CellValue::Number(*n)).collect();
    Value::Array(Array {
        width: rows[0].len() as u32,
        height: rows.len() as u32,
        values: CellValues::from_vec(&values),
    })
}

#[test]
fn test_formula_array_op() {
    let g = numbered_sheet();

    assert_eq!((11 * 31).to_string(), eval_to_string(&g, "A1 * C1"));
    assert_eq!(
        block(vec![
            vec![11 * 31, 21 * 31],
            vec![12 * 31, 22 * 31],
            vec![13 * 31, 23 * 31],
            vec![14 * 31, 24 * 31],
        ]),
        eval(&g, "A1:B4 * C1").unwrap(),
    );
    assert_eq!(
        block(vec![
            vec![11 * 31, 11 * 41],
            vec![11 * 32, 11 * 42],
            vec![11 * 33, 11 * 43],
            vec![11 * 34, 11 * 44],
        ]),
        eval(&g, "A1 * C1:D4").unwrap(),
    );
    assert_eq!(
        block(vec![
            vec![11 * 31, 21 * 41],
            vec![12 * 32, 22 * 42],
            vec![13 * 33, 23 * 43],
            vec![14 * 34, 24 * 44],
        ]),
        eval(&g, "A1:B4 * C1:D4").unwrap(),
    );
    assert_eq!(
        "Array size mismatch: expected (4, 2), got (5, 2)",
        eval(&g, "A1:B4 * C1:D5").unwrap_err().message(),
    );
}

#[test]
fn blocks_work_cell_by_cell() {
    let g = numbered_sheet();
    assert_eq!(
        block(vec![vec![-11, -21], vec![-12, -22]]),
        eval(&g, "-A1:B2").unwrap(),
    );
    assert_eq!(
        block(vec![vec![11 + 100, 21 + 100]]),
        eval(&g, "100 + A1:B1").unwrap(),
    );
    assert_eq!(
        eval(&g, "A1:B1 & '!'"),
        Ok(Value::Array(Array {
            width: 2,
            height: 1,
            values: CellValues::from_vec(&vec![
                CellValue::Text("11!".into()),
                CellValue::Text("21!".into())
            ]),
        }))
    );
    assert_eq!(
        eval(&g, "A1:A2 + A1:B1"),
        Err(FormulaError::ArraySizeMismatch {
            expected_height: 2,
            expected_width: 1,
            got_height: 1,
            got_width: 2
        })
    );
    // the first cell without a value decides the error
    assert_eq!(eval(&g, "(A1:B1 & 'x') * 2"), Err(FormulaError::ExpectedNumber));
    assert_eq!(eval(&g, "A1:B1 ^ 40"), Err(FormulaError::Overflow));
    assert_eq!(FormulaError::Syntax.message(), "Syntax error");
    assert_eq!(FormulaError::Overflow.message(), "Number out of range");
    assert_eq!(FormulaError::ExpectedNumber.message(), "Expected a number");
    assert_eq!(FormulaError::NegativeExponent.message(), "Negative exponent");
    assert_eq!(FormulaError::RangeTooLarge.message(), "Too many cells");
}
