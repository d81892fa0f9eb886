use indexmap::IndexSet;
use quadratic_core::controller::grid_controller::GridController;
use quadratic_core::controller::operation::Operation;
use quadratic_core::controller::transaction_summary::TransactionSummary;
use quadratic_core::controller::update_code_cell_value::{
    fetch_code_cell_difference, update_code_cell_value,
};
use quadratic_core::grid::code::CellRef;
use quadratic_core::grid::sheet::Sheet;
use quadratic_core::position::{Pos, SheetId, SheetPos};
use quadratic_core::values::{
    Array, CellValue, CellValues, CodeRun, CodeRunResult, Value,
};

fn empty_array(width: u32, height: u32) -> CodeRun {
    let values = vec![CellValue::Blank; (width * height) as usize];
    CodeRun {
        result: CodeRunResult::Output(Value::Array(Array {
            width,
            height,
            values: CellValues::from_vec(&values),
        })),
        spill_error: false,
    }
}

#[test]
fn test_fetch_code_cell_difference() {
    let sheet = Sheet::new(SheetId { id: 11 });

    let old = Some(empty_array(2, 3));
    let new_smaller = Some(empty_array(1, 2));

    let sheet_pos = SheetPos {
        x: 0,
        y: 0,
        sheet_id: sheet.id(),
    };

    let mut summary = TransactionSummary::default();

    let mut cells_to_compute = IndexSet::new();

    fetch_code_cell_difference(
        &sheet,
        sheet_pos.pos(),
        old.clone(),
        new_smaller,
        &mut summary,
        &mut cells_to_compute,
    );
    assert_eq!(summary.cell_sheets_modified.to_vec().len(), 1);
    // the second column as far down as the new output, then the third row
    assert_eq!(
        cells_to_compute.iter().copied().collect::<Vec<_>>(),
        vec![(11, 1, 0), (11, 1, 1), (11, 0, 2), (11, 1, 2)]
    );

    summary.clear();

    let new_larger = Some(empty_array(5, 6));

    fetch_code_cell_difference(
        &sheet,
        sheet_pos.pos(),
        old,
        new_larger,
        &mut summary,
        &mut cells_to_compute,
    );
    assert_eq!(summary.cell_sheets_modified.to_vec().len(), 0);
    assert_eq!(cells_to_compute.len(), 4);
}

#[test]
fn update_code_cell_value_stores_and_notes() {
    let sheet_id = SheetId { id: 5 };
    let mut gc = GridController::with_sheet(sheet_id);
    let cell_ref = CellRef { sheet: sheet_id, column: 2, row: 3 };
    let mut cells_to_compute = IndexSet::new();
    let mut reverse_operations: Vec<Operation> = Vec::new();
    let mut summary = TransactionSummary::default();
    cells_to_compute.insert((5, 2, 4));

    let success = update_code_cell_value(
        &mut gc,
        cell_ref,
        Some(empty_array(2, 2)),
        &mut cells_to_compute,
        &mut reverse_operations,
        &mut summary,
    );
    assert!(success);
    assert!(summary.save);
    assert!(summary.generate_thumbnail);
    assert!(summary.code_cells_modified.contains(sheet_id));
    assert!(summary.cell_sheets_modified.contains(sheet_id));
    assert!(!summary.html.contains(sheet_id));
    // all cells of the output but the first; the one that was there stays first
    assert_eq!(
        cells_to_compute.iter().copied().collect::<Vec<_>>(),
        vec![(5, 2, 4), (5, 3, 3), (5, 3, 4)]
    );
    assert_eq!(
        reverse_operations,
        vec![Operation::SetCodeRun {
            sheet_pos: SheetPos { x: 2, y: 3, sheet_id },
            code_run: None
        }]
    );
    assert_eq!(
        gc.try_sheet(sheet_id).unwrap().get_code_cell(Pos { x: 2, y: 3 }),
        Some(&empty_array(2, 2))
    );

    // a failed run in its place: the cells of the old output are to be computed again
    let failed = CodeRun {
        result: CodeRunResult::Failed("boom".to_string()),
        spill_error: false,
    };
    let mut cells_to_compute = IndexSet::new();
    let success = update_code_cell_value(
        &mut gc,
        cell_ref,
        Some(failed),
        &mut cells_to_compute,
        &mut reverse_operations,
        &mut summary,
    );
    assert!(!success);
    assert_eq!(
        cells_to_compute.iter().copied().collect::<Vec<_>>(),
        vec![(5, 3, 3), (5, 2, 4), (5, 3, 4)]
    );
    assert_eq!(reverse_operations.len(), 2);

    // a sheet that is not there
    let mut summary = TransactionSummary::default();
    let success = update_code_cell_value(
        &mut gc,
        CellRef { sheet: SheetId { id: 6 }, column: 0, row: 0 },
        None,
        &mut cells_to_compute,
        &mut reverse_operations,
        &mut summary,
    );
    assert!(!success);
    assert!(summary.save);
    assert_eq!(reverse_operations.len(), 2);
}
