use quadratic_core::controller::grid_controller::GridController;
use quadratic_core::controller::operation::Operation;
use quadratic_core::position::{Pos, SheetId, SheetPos};
use quadratic_core::sequencer::Sequencer;
use quadratic_core::values::CellValue;
use std::str::FromStr;
use uuid::Uuid;

fn sheet() -> SheetId {
    SheetId { id: 3 }
}

fn at(x: i64, y: i64) -> SheetPos {
    SheetPos { x, y, sheet_id: sheet() }
}

fn shown(gc: &GridController, x: i64, y: i64) -> Option<CellValue> {
    gc.try_sheet(sheet()).unwrap().get_cell_value(Pos { x, y })
}

#[test]
fn the_sequencer_numbers_transactions_from_one() {
    let mut sequencer = Sequencer::new(GridController::with_sheet(sheet()));
    assert!(sequencer.is_valid());
    assert_eq!(sequencer.sequence_num(), 0);
    let set = |x, text: &str| {
        vec![Operation::SetCellValue {
            sheet_pos: at(x, 0),
            value: CellValue::Text(text.into()),
        }]
    };
    assert_eq!(sequencer.submit(10, set(0, "a")), 1);
    assert_eq!(sequencer.submit(11, set(0, "b")), 2);
    assert_eq!(sequencer.submit(12, set(1, "c")), 3);
    assert_eq!(sequencer.sequence_num(), 3);
    assert_eq!(shown(&sequencer.controller, 0, 0), Some(CellValue::Text("b".into())));
    assert_eq!(shown(&sequencer.controller, 1, 0), Some(CellValue::Text("c".into())));

    let from_two = sequencer.transactions_from(99, 2);
    assert_eq!(from_two.len(), 2);
    assert_eq!((from_two[0].id, from_two[0].sequence_num, from_two[0].file_id), (11, 2, 99));
    assert_eq!((from_two[1].id, from_two[1].sequence_num), (12, 3));
    assert_eq!(from_two[1].operations, set(1, "c"));
    assert_eq!(sequencer.transactions_from(99, 0).len(), 3);
    assert_eq!(sequencer.transactions_from(99, 1).len(), 3);
    assert_eq!(sequencer.transactions_from(99, 3).len(), 1);
    assert_eq!(sequencer.transactions_from(99, 4).len(), 0);
    assert_eq!(sequencer.transactions_from(99, u64::MAX).len(), 0);

    // a sequencer whose numbers are not its own is not in order
    sequencer.transactions[1].sequence_num = Some(7);
    assert!(!sequencer.is_valid());
}

#[test]
fn participants_follow_the_sequencer() {
    let mut sequencer = Sequencer::new(GridController::with_sheet(sheet()));
    let mut one = GridController::with_sheet(sheet());
    let mut two = GridController::with_sheet(sheet());

    // both write to the same cell, one also elsewhere
    let from_one = one.set_cell_value(at(0, 0), "one".into(), None);
    let from_two = two.set_cell_value(at(0, 0), "two".into(), None);
    let also = one.set_cell_value(at(4, 4), "5".into(), None);
    let sent = [from_two, from_one, also];

    // the sequencer orders them as they come in and sends them on
    for summary in sent {
        let id = Uuid::from_str(summary.transaction_id.as_ref().unwrap()).unwrap().as_u128();
        let operations = summary.operations.unwrap();
        let number = sequencer.submit(id, operations.clone());
        one.received_transaction(id, number, operations.clone());
        two.received_transaction(id, number, operations);
    }

    for participant in [&one, &two] {
        assert_eq!(participant.transactions.unsaved_transactions.len(), 0);
        assert_eq!(participant.transactions.last_sequence_num, 3);
        for (x, y) in [(0, 0), (4, 4), (1, 1)] {
            assert_eq!(shown(participant, x, y), shown(&sequencer.controller, x, y));
        }
    }
    assert_eq!(shown(&one, 0, 0), Some(CellValue::Text("one".into())));
    assert_eq!(shown(&two, 4, 4), Some(CellValue::Number(5)));

    // a participant that comes late catches up with one batch
    let mut late = GridController::with_sheet(sheet());
    let asked = late.receive_sequence_num_at(sequencer.sequence_num(), 1);
    let batch = sequencer.transactions_from(0, asked.request_transactions.unwrap());
    late.received_transactions(&batch).unwrap();
    assert_eq!(late.transactions.last_sequence_num, 3);
    assert_eq!(shown(&late, 0, 0), Some(CellValue::Text("one".into())));
    assert_eq!(shown(&late, 4, 4), Some(CellValue::Number(5)));
}
