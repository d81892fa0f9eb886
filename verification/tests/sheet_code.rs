use quadratic_core::controller::grid_controller::GridController;
use quadratic_core::position::{Pos, Rect, SheetId};
use quadratic_core::values::OutputSize;

#[test]
fn test_html_output_size() {
    let mut gc = GridController::with_sheet(SheetId { id: 7 });
    let sheet_id = gc.sheet_ids()[0];
    gc.set_cell_output_size(
        sheet_id,
        Rect::single_pos(Pos { x: 0, y: 0 }),
        Some(OutputSize { w: 10, h: 20 }),
        None,
    );

    let sheet = gc.try_sheet(sheet_id).unwrap();
    assert_eq!(sheet.html_output_size(Pos { x: 0, y: 0 }), (10, 20));
    assert_eq!(sheet.html_output_size(Pos { x: 1, y: 1 }), (0, 0));
}
