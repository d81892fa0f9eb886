use quadratic_core::controller::grid_controller::GridController;
use quadratic_core::controller::pending_transaction::PendingTransaction;
use quadratic_core::grid::code::CellRef;
use quadratic_core::grid::js_types::{CellAlign, JsRenderCell};
use quadratic_core::position::{Pos, Rect, SheetPos, SheetRect};
use quadratic_core::values::{CellValue, CodeCellLanguage, CodeRunResult, Value};

#[test]
fn spills_test_check_spills() {
    let mut gc = GridController::new();
    let mut transaction = PendingTransaction::default();

    let sheet_id = gc.sheet_ids()[0];
    let sheet = gc.grid.try_sheet_mut(sheet_id).unwrap();
    sheet.set_cell_value(Pos { x: 0, y: 0 }, CellValue::Number(1));
    sheet.set_cell_value(Pos { x: 0, y: 1 }, CellValue::Number(2));
    gc.set_code_cell(
        SheetPos {
            x: 1,
            y: 0,
            sheet_id,
        },
        CodeCellLanguage::Formula,
        "A0:A1".to_string(),
        None,
    );

    let sheet = gc.grid.try_sheet_mut(sheet_id).unwrap();

    // manually set a cell value and see if spill is changed
    sheet.set_cell_value(Pos { x: 1, y: 1 }, CellValue::Number(3));
    let sheet_rect = SheetRect::single_sheet_pos(SheetPos {
        x: 1,
        y: 1,
        sheet_id,
    });

    let sheet = gc.grid.try_sheet(sheet_id).unwrap();
    assert!(!sheet.code_run_at_index(0).unwrap().1.spill_error);

    gc.check_spills(&mut transaction, &sheet_rect);

    let sheet = gc.grid.try_sheet(sheet_id).unwrap();
    assert!(sheet.code_run_at_index(0).unwrap().1.spill_error);
}

#[test]
fn test_check_all_spills() {
    let mut gc = GridController::new();
    let mut transaction = PendingTransaction::default();

    let sheet_id = gc.sheet_ids()[0];
    let sheet = gc.grid.try_sheet_mut(sheet_id).unwrap();
    sheet.set_cell_value(Pos { x: 0, y: 0 }, CellValue::Number(1));
    sheet.set_cell_value(Pos { x: 0, y: 1 }, CellValue::Number(2));
    gc.set_code_cell(
        SheetPos {
            x: 1,
            y: 0,
            sheet_id,
        },
        CodeCellLanguage::Formula,
        "A0:A1".to_string(),
        None,
    );

    let sheet = gc.grid.try_sheet_mut(sheet_id).unwrap();

    // manually set a cell value and see if spill is changed
    sheet.set_cell_value(Pos { x: 1, y: 1 }, CellValue::Number(3));

    let sheet = gc.grid.try_sheet(sheet_id).unwrap();
    assert!(!sheet.code_run_at_index(0).unwrap().1.spill_error);

    gc.check_all_spills(&mut transaction, sheet_id, 0);

    let sheet = gc.grid.try_sheet(sheet_id).unwrap();
    assert!(sheet.code_run_at_index(0).unwrap().1.spill_error);
}

fn with_block() -> (GridController, quadratic_core::position::SheetId) {
    let mut gc = GridController::new();
    let sheet_id = gc.sheet_ids()[0];
    gc.set_cell_value(SheetPos { x: 1, y: 0, sheet_id }, "1".into(), None);
    gc.set_cell_value(SheetPos { x: 1, y: 1, sheet_id }, "2".into(), None);
    gc.set_cell_value(SheetPos { x: 1, y: 2, sheet_id }, "3".into(), None);
    (gc, sheet_id)
}

#[test]
fn formula_block_spills_and_is_released() {
    let (mut gc, sheet_id) = with_block();
    // value that is in the way of the output
    gc.set_cell_value(SheetPos { x: 0, y: 1, sheet_id }, "hello".into(), None);
    gc.set_code_cell(
        SheetPos { x: 0, y: 0, sheet_id },
        CodeCellLanguage::Formula,
        "B0:B2".into(),
        None,
    );
    let sheet = gc.try_sheet(sheet_id).unwrap();
    let (pos, run) = sheet.code_run_at_index(0).unwrap();
    assert_eq!(pos, Pos { x: 0, y: 0 });
    assert!(run.spill_error);
    assert_eq!(run.output_size(), (1, 3));
    assert_eq!(sheet.get_cell_value(Pos { x: 0, y: 0 }), None);
    assert_eq!(
        sheet.get_cell_value(Pos { x: 0, y: 1 }),
        Some(CellValue::Text("hello".into()))
    );

    // remove 'hello' that caused the spill
    gc.set_cell_value(SheetPos { x: 0, y: 1, sheet_id }, "".into(), None);
    let sheet = gc.try_sheet(sheet_id).unwrap();
    assert!(!sheet.code_run_at_index(0).unwrap().1.spill_error);
    assert_eq!(
        sheet.get_cell_value(Pos { x: 0, y: 0 }),
        Some(CellValue::Number(1))
    );
    assert_eq!(
        sheet.get_cell_value(Pos { x: 0, y: 1 }),
        Some(CellValue::Number(2))
    );
    assert_eq!(
        sheet.get_code_cell_value(Pos { x: 0, y: 2 }),
        Some(CellValue::Number(3))
    );
    assert_eq!(sheet.get_code_cell_value(Pos { x: 0, y: 3 }), None);
}

#[test]
fn code_cell_in_the_way_causes_spill() {
    let (mut gc, sheet_id) = with_block();
    gc.set_code_cell(
        SheetPos { x: 0, y: 0, sheet_id },
        CodeCellLanguage::Formula,
        "B0:B2".into(),
        None,
    );
    let sheet = gc.try_sheet(sheet_id).unwrap();
    assert!(!sheet.get_code_cell(Pos { x: 0, y: 0 }).unwrap().spill_error);
    assert_eq!(
        sheet.get_cell_value(Pos { x: 0, y: 1 }),
        Some(CellValue::Number(2))
    );

    gc.set_code_cell(
        SheetPos { x: 0, y: 1, sheet_id },
        CodeCellLanguage::Formula,
        "1 + 2".into(),
        None,
    );

    // should be spilled because of the code_cell
    let sheet = gc.try_sheet(sheet_id).unwrap();
    assert!(sheet.get_code_cell(Pos { x: 0, y: 0 }).unwrap().spill_error);
    assert_eq!(
        sheet.get_code_cell(Pos { x: 0, y: 1 }).unwrap().result,
        CodeRunResult::Output(Value::Single(CellValue::Number(3)))
    );
    assert_eq!(
        sheet.get_cell_value(Pos { x: 0, y: 1 }),
        Some(CellValue::Number(3))
    );

    // undoing the second code cell releases the first
    gc.undo(None);
    let sheet = gc.try_sheet(sheet_id).unwrap();
    assert!(!sheet.get_code_cell(Pos { x: 0, y: 0 }).unwrap().spill_error);
    assert_eq!(sheet.get_code_cell(Pos { x: 0, y: 1 }), None);
    assert_eq!(
        sheet.get_cell_value(Pos { x: 0, y: 1 }),
        Some(CellValue::Number(2))
    );
}

#[test]
fn single_cell_spill_checks() {
    let (mut gc, sheet_id) = with_block();
    gc.set_code_cell(
        SheetPos { x: 0, y: 0, sheet_id },
        CodeCellLanguage::Formula,
        "B0:B2".into(),
        None,
    );
    let code = CellRef { sheet: sheet_id, column: 0, row: 0 };
    let below = CellRef { sheet: sheet_id, column: 0, row: 1 };
    let elsewhere = CellRef { sheet: sheet_id, column: 5, row: 5 };
    let mut transaction = PendingTransaction::default();

    // a cell outside the output, and the code cell itself, cause nothing
    gc.check_spill(&mut transaction, elsewhere);
    gc.check_spill(&mut transaction, code);
    assert!(!gc.try_sheet(sheet_id).unwrap().get_code_cell(Pos { x: 0, y: 0 }).unwrap().spill_error);
    assert_eq!(transaction.forward_operations.len(), 0);

    // a cell under the output does
    gc.grid
        .try_sheet_mut(sheet_id)
        .unwrap()
        .set_cell_value(Pos { x: 0, y: 1 }, CellValue::Number(9));
    gc.check_spill(&mut transaction, below);
    assert!(gc.try_sheet(sheet_id).unwrap().get_code_cell(Pos { x: 0, y: 0 }).unwrap().spill_error);
    assert_eq!(transaction.forward_operations.len(), 1);
    assert_eq!(transaction.reverse_operations.len(), 1);

    // not released while the cell is taken
    gc.update_code_cell_value_if_spill_error_released(&mut transaction, below);
    assert!(gc.try_sheet(sheet_id).unwrap().get_code_cell(Pos { x: 0, y: 0 }).unwrap().spill_error);

    // released once it is empty
    gc.grid
        .try_sheet_mut(sheet_id)
        .unwrap()
        .set_cell_value(Pos { x: 0, y: 1 }, CellValue::Blank);
    gc.update_code_cell_value_if_spill_error_released(&mut transaction, below);
    assert!(!gc.try_sheet(sheet_id).unwrap().get_code_cell(Pos { x: 0, y: 0 }).unwrap().spill_error);

    gc.set_spill_error(&mut transaction, code);
    assert!(gc.try_sheet(sheet_id).unwrap().get_code_cell(Pos { x: 0, y: 0 }).unwrap().spill_error);
    gc.set_spill_error(&mut transaction, elsewhere);
    assert_eq!(transaction.forward_operations.len(), 3);
}

fn output_spill_error(x: i64, y: i64) -> Vec<JsRenderCell> {
    vec![JsRenderCell {
        x,
        y,
        language: Some(CodeCellLanguage::Formula),
        value: " SPILL".into(),
        align: None,
        wrap: None,
        bold: None,
        italic: Some(true),
        text_color: Some("red".into()),
    }]
}

fn output_number(
    x: i64,
    y: i64,
    n: &str,
    language: Option<CodeCellLanguage>,
) -> Vec<JsRenderCell> {
    vec![JsRenderCell {
        x,
        y,
        language,
        value: n.into(),
        align: Some(CellAlign::Right),
        wrap: None,
        bold: None,
        italic: None,
        text_color: None,
    }]
}

#[test]
fn test_check_spills() {
    let mut gc = GridController::new();
    let sheet_id = gc.sheet_ids()[0];

    // values to copy
    gc.set_cell_value(SheetPos { x: 1, y: 0, sheet_id }, "1".into(), None);
    gc.set_cell_value(SheetPos { x: 1, y: 1, sheet_id }, "2".into(), None);
    gc.set_cell_value(SheetPos { x: 1, y: 2, sheet_id }, "3".into(), None);

    // value to cause the spill
    gc.set_cell_value(SheetPos { x: 0, y: 1, sheet_id }, "hello".into(), None);
    gc.set_code_cell(
        SheetPos { x: 0, y: 0, sheet_id },
        CodeCellLanguage::Formula,
        "B0:B3".into(),
        None,
    );
    let sheet = gc.try_sheet(sheet_id).unwrap();
    let render_cells = sheet.get_render_cells(Rect::single_pos(Pos { x: 0, y: 0 }));

    // should be a spill caused by 0,1
    assert_eq!(render_cells, output_spill_error(0, 0),);

    // remove 'hello' that caused spill
    gc.set_cell_value(SheetPos { x: 0, y: 1, sheet_id }, "".into(), None);

    let sheet = gc.try_sheet(sheet_id).unwrap();
    let render_cells = sheet.get_render_cells(Rect::single_pos(Pos { x: 0, y: 0 }));

    // should be B0: "1" since spill was removed
    assert_eq!(
        render_cells,
        output_number(0, 0, "1", Some(CodeCellLanguage::Formula)),
    );
}

#[test]
fn test_check_spills_over_code() {
    let mut gc = GridController::new();
    let sheet_id = gc.sheet_ids()[0];

    // values to copy
    gc.set_cell_value(SheetPos { x: 1, y: 0, sheet_id }, "1".into(), None);
    gc.set_cell_value(SheetPos { x: 1, y: 1, sheet_id }, "2".into(), None);
    gc.set_cell_value(SheetPos { x: 1, y: 2, sheet_id }, "3".into(), None);

    // value to cause the spill
    gc.set_code_cell(
        SheetPos { x: 0, y: 0, sheet_id },
        CodeCellLanguage::Formula,
        "B0:B3".into(),
        None,
    );

    let sheet = gc.try_sheet(sheet_id).unwrap();
    let render_cells = sheet.get_render_cells(Rect::single_pos(Pos { x: 0, y: 0 }));
    assert_eq!(
        render_cells,
        output_number(0, 0, "1", Some(CodeCellLanguage::Formula))
    );
    let render_cells = sheet.get_render_cells(Rect::single_pos(Pos { x: 0, y: 1 }));
    assert_eq!(render_cells, output_number(0, 1, "2", None),);

    gc.set_code_cell(
        SheetPos { x: 0, y: 1, sheet_id },
        CodeCellLanguage::Formula,
        "1 + 2".into(),
        None,
    );

    // should be spilled because of the code_cell
    let sheet = gc.try_sheet(sheet_id).unwrap();
    let render_cells = sheet.get_render_cells(Rect::single_pos(Pos { x: 0, y: 0 }));
    assert_eq!(render_cells, output_spill_error(0, 0),);
}

#[test]
fn test_check_spills_over_code_array() {
    let mut gc = GridController::new();
    let sheet_id = gc.sheet_ids()[0];

    // values to copy
    gc.set_cell_value(SheetPos { x: 0, y: 0, sheet_id }, "1".into(), None);
    gc.set_cell_value(SheetPos { x: 0, y: 1, sheet_id }, "2".into(), None);
    gc.set_cell_value(SheetPos { x: 0, y: 2, sheet_id }, "3".into(), None);
    gc.set_cell_value(SheetPos { x: 1, y: 0, sheet_id }, "1".into(), None);
    gc.set_cell_value(SheetPos { x: 1, y: 1, sheet_id }, "2".into(), None);
    gc.set_cell_value(SheetPos { x: 1, y: 2, sheet_id }, "3".into(), None);
    gc.set_cell_value(SheetPos { x: 2, y: 0, sheet_id }, "1".into(), None);
    gc.set_cell_value(SheetPos { x: 2, y: 1, sheet_id }, "2".into(), None);
    gc.set_cell_value(SheetPos { x: 2, y: 2, sheet_id }, "3".into(), None);

    // copies values to copy to 10,10
    gc.set_code_cell(
        SheetPos { x: 10, y: 10, sheet_id },
        CodeCellLanguage::Formula,
        "A0:C2".into(),
        None,
    );

    // output that is spilled
    gc.set_code_cell(
        SheetPos { x: 11, y: 9, sheet_id },
        CodeCellLanguage::Formula,
        "A0:A2".into(),
        None,
    );

    let sheet = gc.try_sheet(sheet_id).unwrap();
    let render_cells = sheet.get_render_cells(Rect::single_pos(Pos { x: 11, y: 9 }));
    assert_eq!(render_cells, output_spill_error(11, 9));

    // delete the code_cell that caused the spill
    gc.set_cell_value(SheetPos { x: 10, y: 10, sheet_id }, "".into(), None);

    let sheet = gc.try_sheet(sheet_id).unwrap();
    let render_cells = sheet.get_render_cells(Rect::single_pos(Pos { x: 11, y: 9 }));
    assert_eq!(
        render_cells,
        output_number(11, 9, "1", Some(CodeCellLanguage::Formula))
    );
}

#[test]
fn cells_are_drawn_row_after_row() {
    let mut gc = GridController::new();
    let sheet_id = gc.sheet_ids()[0];
    gc.set_cell_value(SheetPos { x: 0, y: 0, sheet_id }, "7".into(), None);
    gc.set_cell_value(SheetPos { x: 1, y: 0, sheet_id }, "word".into(), None);
    gc.set_cell_value(SheetPos { x: 0, y: 1, sheet_id }, "-3".into(), None);
    let sheet = gc.try_sheet(sheet_id).unwrap();
    let all = Rect { min: Pos { x: -1, y: 0 }, max: Pos { x: 1, y: 2 } };
    let cells = sheet.get_render_cells(all);
    assert_eq!(cells.len(), 3);
    assert_eq!(cells[0], output_number(0, 0, "7", None)[0]);
    assert_eq!((cells[1].x, cells[1].y, cells[1].value.as_str()), (1, 0, "word"));
    assert_eq!(cells[1].align, None);
    assert_eq!(cells[2], output_number(0, 1, "-3", None)[0]);
    // a rectangle that holds no cell draws nothing
    let none = Rect { min: Pos { x: 1, y: 0 }, max: Pos { x: 0, y: 0 } };
    assert_eq!(sheet.get_render_cells(none), vec![]);
    assert_eq!(sheet.get_render_cell(Pos { x: 5, y: 5 }), None);
}

#[test]
fn code_cells_count_columns_from_a_and_may_not_name_themselves() {
    let (mut gc, sheet_id) = with_block();
    let code = |gc: &mut GridController, x: i64, y: i64, formula: &str| {
        gc.set_code_cell(
            SheetPos { x, y, sheet_id },
            CodeCellLanguage::Formula,
            formula.into(),
            None,
        );
        gc.try_sheet(sheet_id)
            .unwrap()
            .get_code_cell(Pos { x, y })
            .unwrap()
            .result
            .clone()
    };
    // `B` is column 1 in a code cell, with or without `$`
    assert_eq!(
        code(&mut gc, 5, 5, "B1 + $B$2"),
        CodeRunResult::Output(Value::Single(CellValue::Number(5)))
    );
    assert_eq!(
        code(&mut gc, 6, 5, "SUM(B0:B2)"),
        CodeRunResult::Output(Value::Single(CellValue::Number(6)))
    );
    assert_eq!(
        code(&mut gc, 7, 5, "AVERAGE(B0:B1)"),
        CodeRunResult::Output(Value::Single(CellValue::Decimal {
            negative: false,
            whole: 1,
            fraction: "5".into()
        }))
    );
    let sheet = gc.try_sheet(sheet_id).unwrap();
    assert_eq!(
        sheet.get_render_cells(Rect::single_pos(Pos { x: 7, y: 5 })),
        output_number(7, 5, "1.5", Some(CodeCellLanguage::Formula))
    );
    // column 8 is `I`
    assert_eq!(
        code(&mut gc, 8, 5, "I5"),
        CodeRunResult::Failed("Circular reference".into())
    );
    assert_eq!(
        code(&mut gc, 8, 6, "H0:J9"),
        CodeRunResult::Failed("Circular reference".into())
    );
    assert_eq!(
        code(&mut gc, 8, 7, "A0:B3 * A0:B4"),
        CodeRunResult::Failed("Array size mismatch: expected (4, 2), got (5, 2)".into())
    );
}
