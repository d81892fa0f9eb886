use quadratic_core::controller::calculation::JsCodeResult;
use quadratic_core::controller::execution::receive_multiplayer::CoreError;
use quadratic_core::controller::grid_controller::GridController;
use quadratic_core::controller::operation::Operation;
use quadratic_core::controller::transaction::TransactionServer;
use quadratic_core::position::{Pos, Rect, SheetId, SheetPos, SheetRect};
use quadratic_core::values::{CellValue, CodeCellLanguage, OutputSize};
use std::str::FromStr;
use uuid::Uuid;

fn sheet() -> SheetId {
    SheetId { id: 42 }
}

fn at(x: i64, y: i64) -> SheetPos {
    SheetPos { x, y, sheet_id: sheet() }
}

fn set(x: i64, y: i64, text: &str) -> Operation {
    Operation::SetCellValue {
        sheet_pos: at(x, y),
        value: CellValue::Text(text.to_string()),
    }
}

fn shown(gc: &GridController, x: i64, y: i64) -> Option<CellValue> {
    gc.try_sheet(sheet()).unwrap().get_cell_value(Pos { x, y })
}

fn text(value: &str) -> Option<CellValue> {
    Some(CellValue::Text(value.to_string()))
}

fn id_of(summary_id: &Option<String>) -> u128 {
    Uuid::from_str(summary_id.as_ref().unwrap()).unwrap().as_u128()
}

#[test]
fn participants_converge_on_the_higher_sequence_number() {
    let mut a = GridController::with_sheet(sheet());
    let mut b = GridController::with_sheet(sheet());
    let from_a = a.set_cell_value(at(0, 0), "from a".into(), None);
    let from_b = b.set_cell_value(at(0, 0), "from b".into(), None);
    assert_eq!(shown(&a, 0, 0), text("from a"));
    assert_eq!(shown(&b, 0, 0), text("from b"));

    // the sequencer orders a's edit first, then b's
    let id_a = id_of(&from_a.transaction_id);
    let id_b = id_of(&from_b.transaction_id);
    let ops_a = from_a.operations.unwrap();
    let ops_b = from_b.operations.unwrap();

    // a receives them in order, b out of order
    a.received_transaction(id_a, 1, ops_a.clone());
    a.received_transaction(id_b, 2, ops_b.clone());
    b.received_transaction(id_b, 2, ops_b);
    assert_eq!(shown(&b, 0, 0), text("from b"));
    b.received_transaction(id_a, 1, ops_a);

    assert_eq!(shown(&a, 0, 0), text("from b"));
    assert_eq!(shown(&b, 0, 0), text("from b"));
    assert_eq!(a.transactions.unsaved_transactions.len(), 0);
    assert_eq!(b.transactions.unsaved_transactions.len(), 0);
    assert_eq!(a.transactions.last_sequence_num, 2);
    assert_eq!(b.transactions.last_sequence_num, 2);
    assert_eq!(b.transactions.out_of_order_transactions.len(), 0);
}

#[test]
fn the_summary_names_the_transaction_that_is_kept() {
    let mut gc = GridController::with_sheet(sheet());
    let summary = gc.set_cell_value(at(1, 2), "17".into(), None);
    let id = id_of(&summary.transaction_id);
    assert_eq!(gc.transactions.unsaved_transactions.len(), 1);
    assert_eq!(gc.transactions.unsaved_transactions[0].forward.id, id);
    assert_eq!(
        summary.operations.unwrap(),
        vec![Operation::SetCellValue {
            sheet_pos: at(1, 2),
            value: CellValue::Number(17)
        }]
    );
    assert_eq!(
        gc.transactions.unsaved_transactions[0].reverse.operations,
        vec![Operation::SetCellValue {
            sheet_pos: at(1, 2),
            value: CellValue::Blank
        }]
    );
    assert!(summary.save);
    assert!(!summary.skipped_operations);
}

#[test]
fn stale_and_repeated_transactions_are_dropped() {
    let mut gc = GridController::with_sheet(sheet());
    gc.received_transaction(1, 1, vec![set(0, 0, "one")]);
    assert_eq!(gc.transactions.last_sequence_num, 1);
    // the same number again, and a lower one
    let summary = gc.received_transaction(2, 1, vec![set(0, 0, "again")]);
    assert!(!summary.save);
    gc.received_transaction(3, 0, vec![set(0, 0, "zero")]);
    assert_eq!(shown(&gc, 0, 0), text("one"));
    assert_eq!(gc.transactions.last_sequence_num, 1);
    assert_eq!(gc.transactions.out_of_order_transactions.len(), 0);
}

#[test]
fn waiting_transactions_are_kept_by_falling_number_and_drained_in_order() {
    let mut gc = GridController::with_sheet(sheet());
    gc.received_transaction(4, 4, vec![set(0, 0, "four")]);
    gc.received_transaction(2, 2, vec![set(0, 0, "two")]);
    gc.received_transaction(6, 6, vec![set(0, 0, "six")]);
    gc.received_transaction(3, 3, vec![set(0, 0, "three")]);
    let waiting: Vec<Option<u64>> = gc
        .transactions
        .out_of_order_transactions
        .iter()
        .map(|t| t.sequence_num)
        .collect();
    assert_eq!(waiting, vec![Some(6), Some(4), Some(3), Some(2)]);
    assert_eq!(shown(&gc, 0, 0), None);

    gc.received_transaction(1, 1, vec![set(0, 0, "one")]);
    assert_eq!(shown(&gc, 0, 0), text("four"));
    assert_eq!(gc.transactions.last_sequence_num, 4);
    assert_eq!(gc.transactions.out_of_order_transactions.len(), 1);

    gc.received_transaction(5, 5, vec![set(1, 1, "five")]);
    assert_eq!(shown(&gc, 0, 0), text("six"));
    assert_eq!(shown(&gc, 1, 1), text("five"));
    assert_eq!(gc.transactions.last_sequence_num, 6);
    assert_eq!(gc.transactions.out_of_order_transactions.len(), 0);
}

#[test]
fn an_own_transaction_that_waited_is_acknowledged_when_drained() {
    let mut gc = GridController::with_sheet(sheet());
    let own = gc.set_cell_value(at(0, 0), "mine".into(), None);
    let id = id_of(&own.transaction_id);
    // our own transaction comes back as number 2, before number 1
    gc.received_transaction(id, 2, own.operations.unwrap());
    assert_eq!(gc.transactions.unsaved_transactions.len(), 1);
    gc.received_transaction(9, 1, vec![set(0, 0, "theirs"), set(1, 1, "theirs")]);
    assert_eq!(gc.transactions.unsaved_transactions.len(), 0);
    assert_eq!(gc.transactions.last_sequence_num, 2);
    assert_eq!(shown(&gc, 0, 0), text("mine"));
    assert_eq!(shown(&gc, 1, 1), text("theirs"));
}

#[test]
fn requests_for_transactions_are_throttled() {
    let mut gc = GridController::with_sheet(sheet());
    let start = 1_700_000_000_000;
    let first = gc.receive_sequence_num_at(3, start);
    assert_eq!(first.request_transactions, Some(1));
    assert_eq!(gc.transactions.last_get_transactions_time, Some(start));
    // within the time to wait: no second request
    let second = gc.receive_sequence_num_at(4, start + 4_999);
    assert_eq!(second.request_transactions, None);
    let at_the_limit = gc.receive_sequence_num_at(4, start + 5_000);
    assert_eq!(at_the_limit.request_transactions, None);
    // after it: asked again
    let third = gc.receive_sequence_num_at(4, start + 5_001);
    assert_eq!(third.request_transactions, Some(1));
    assert_eq!(gc.transactions.last_get_transactions_time, Some(start + 5_001));
}

#[test]
fn no_request_when_nothing_is_missing() {
    let mut gc = GridController::with_sheet(sheet());
    gc.set_last_sequence_num(7);
    assert_eq!(gc.receive_sequence_num_at(7, 10).request_transactions, None);
    assert_eq!(gc.receive_sequence_num_at(6, 10).request_transactions, None);
    assert_eq!(gc.transactions.last_get_transactions_time, None);
    assert_eq!(gc.receive_sequence_num_at(8, 10).request_transactions, Some(8));
    // a time so late that the time to wait cannot be added: no request
    gc.transactions.last_get_transactions_time = Some(i64::MAX - 10);
    assert_eq!(gc.receive_sequence_num_at(9, i64::MAX).request_transactions, None);
    // the clock of the machine
    gc.transactions.last_get_transactions_time = None;
    assert_eq!(gc.receive_sequence_num(9).request_transactions, Some(8));
    assert!(gc.transactions.last_get_transactions_time.unwrap() > 1_600_000_000_000);
}

#[test]
fn undo_leaves_remote_edits_alone() {
    let mut gc = GridController::with_sheet(sheet());
    let own = gc.set_cell_value(at(0, 0), "mine".into(), None);
    gc.received_transaction(id_of(&own.transaction_id), 1, own.operations.unwrap());
    gc.received_transaction(77, 2, vec![set(5, 5, "theirs")]);
    assert!(gc.has_undo());
    assert!(!gc.has_redo());

    let summary = gc.undo(None);
    assert_eq!(shown(&gc, 0, 0), None);
    assert_eq!(shown(&gc, 5, 5), text("theirs"));
    assert!(!gc.js_has_undo());
    assert!(gc.js_has_redo());
    // the undo is itself a transaction to send
    assert_eq!(
        summary.operations.unwrap(),
        vec![Operation::SetCellValue {
            sheet_pos: at(0, 0),
            value: CellValue::Blank
        }]
    );
    assert_eq!(gc.transactions.unsaved_transactions.len(), 1);

    gc.redo(None);
    assert_eq!(shown(&gc, 0, 0), text("mine"));
    assert_eq!(shown(&gc, 5, 5), text("theirs"));
    assert!(gc.has_undo());
    assert!(!gc.has_redo());

    // nothing to redo: nothing happens
    let nothing = gc.redo(None);
    assert_eq!(nothing.operations, None);
    assert_eq!(gc.transactions.unsaved_transactions.len(), 2);
}

#[test]
fn edits_on_a_missing_sheet_are_skipped() {
    let mut gc = GridController::with_sheet(sheet());
    let elsewhere = SheetPos { x: 0, y: 0, sheet_id: SheetId { id: 1 } };
    let summary = gc.received_transaction(
        1,
        1,
        vec![
            Operation::SetCellValue {
                sheet_pos: elsewhere,
                value: CellValue::Number(1),
            },
            set(0, 0, "here"),
        ],
    );
    assert!(summary.skipped_operations);
    assert_eq!(shown(&gc, 0, 0), text("here"));
    assert_eq!(gc.transactions.last_sequence_num, 1);

    let summary = gc.set_cell_value(elsewhere, "x".into(), None);
    assert!(summary.skipped_operations);
    assert_eq!(summary.operations, None);
    assert_eq!(gc.transactions.unsaved_transactions.len(), 0);
    assert!(!gc.has_undo());
}

#[test]
fn move_cells_is_one_transaction() {
    let mut gc = GridController::with_sheet(sheet());
    gc.set_cell_value(at(0, 0), "a".into(), None);
    gc.set_cell_value(at(1, 1), "b".into(), None);
    gc.set_cell_value(at(3, 3), "stays".into(), None);
    let summary = gc.start_user_transaction(
        vec![Operation::MoveCells {
            source: SheetRect {
                min: Pos { x: 0, y: 0 },
                max: Pos { x: 1, y: 1 },
                sheet_id: sheet(),
            },
            dest: at(10, 20),
        }],
        None,
    );
    assert_eq!(shown(&gc, 0, 0), None);
    assert_eq!(shown(&gc, 1, 1), None);
    assert_eq!(shown(&gc, 10, 20), text("a"));
    assert_eq!(shown(&gc, 11, 21), text("b"));
    assert_eq!(shown(&gc, 3, 3), text("stays"));
    // first the cells are emptied, then filled where they land
    assert_eq!(
        summary.operations.unwrap(),
        vec![
            Operation::SetCellValue { sheet_pos: at(0, 0), value: CellValue::Blank },
            Operation::SetCellValue { sheet_pos: at(1, 1), value: CellValue::Blank },
            set(10, 20, "a"),
            set(11, 21, "b"),
        ]
    );
    gc.undo(None);
    assert_eq!(shown(&gc, 0, 0), text("a"));
    assert_eq!(shown(&gc, 1, 1), text("b"));
    assert_eq!(shown(&gc, 10, 20), None);
    assert_eq!(shown(&gc, 11, 21), None);
}

#[test]
fn output_sizes_over_a_rectangle() {
    let mut gc = GridController::with_sheet(sheet());
    let rect = Rect { min: Pos { x: -1, y: 2 }, max: Pos { x: 0, y: 3 } };
    let summary = gc.set_cell_output_size(sheet(), rect, Some(OutputSize { w: 3, h: 4 }), None);
    assert_eq!(summary.operations.as_ref().unwrap().len(), 4);
    assert!(summary.html.contains(sheet()));
    let s = gc.try_sheet(sheet()).unwrap();
    assert_eq!(s.html_output_size(Pos { x: -1, y: 2 }), (3, 4));
    assert_eq!(s.html_output_size(Pos { x: 0, y: 3 }), (3, 4));
    assert_eq!(s.html_output_size(Pos { x: 1, y: 3 }), (0, 0));
    // a rectangle without cells changes nothing
    let empty = Rect { min: Pos { x: 1, y: 1 }, max: Pos { x: 0, y: 0 } };
    let summary = gc.set_cell_output_size(sheet(), empty, None, None);
    assert_eq!(summary.operations, None);
}

#[test]
fn results_for_unknown_transactions_are_refused() {
    let mut gc = GridController::with_sheet(sheet());
    let result = |id: String| {
        JsCodeResult::new_from_rust(id, true, None, None, None, Some("1".into()), None, None, None)
    };
    assert_eq!(
        gc.calculation_complete(result("not an identifier".into())).err(),
        Some(CoreError::InvalidTransactionId)
    );
    assert_eq!(
        gc.calculation_complete(result(Uuid::from_u128(5).to_string())).err(),
        Some(CoreError::TransactionNotFound)
    );
    assert_eq!(
        gc.complete_async(5, result(String::new()).code_run()).err(),
        Some(CoreError::TransactionNotFound)
    );
}

#[test]
fn async_results_may_be_blocks_and_failures() {
    let mut gc = GridController::with_sheet(sheet());
    gc.set_code_cell(at(0, 0), CodeCellLanguage::Javascript, "rows()".into(), None);
    assert_eq!(gc.transactions.unsaved_transactions.len(), 0);
    let id = gc.async_transactions()[0].id;
    let rows = vec![
        vec!["1".to_string(), "two".to_string()],
        vec!["3".to_string()],
    ];
    let summary = gc
        .calculation_complete(JsCodeResult::new_from_rust(
            Uuid::from_u128(id).to_string(),
            true,
            None,
            None,
            None,
            None,
            Some(rows),
            None,
            None,
        ))
        .unwrap();
    assert_eq!(shown(&gc, 0, 0), Some(CellValue::Number(1)));
    assert_eq!(shown(&gc, 1, 0), text("two"));
    assert_eq!(shown(&gc, 0, 1), Some(CellValue::Number(3)));
    assert_eq!(shown(&gc, 1, 1), None);
    assert_eq!(gc.async_transactions().len(), 0);
    assert_eq!(gc.transactions.unsaved_transactions.len(), 1);
    assert_eq!(id_of(&summary.transaction_id), id);

    gc.set_code_cell(at(5, 5), CodeCellLanguage::Python, "fail()".into(), None);
    let id = gc.async_transactions()[0].id;
    gc.calculation_complete(JsCodeResult::new_from_rust(
        Uuid::from_u128(id).to_string(),
        false,
        None,
        Some("it failed".into()),
        None,
        None,
        None,
        None,
        None,
    ))
    .unwrap();
    assert_eq!(shown(&gc, 5, 5), None);
    assert_eq!(
        gc.try_sheet(sheet()).unwrap().get_code_cell(Pos { x: 5, y: 5 }).unwrap().result,
        quadratic_core::values::CodeRunResult::Failed("it failed".into())
    );
}

#[test]
fn a_batch_is_like_the_transactions_one_by_one() {
    let batch = || {
        vec![
            TransactionServer { file_id: 1, id: 11, sequence_num: 2, operations: vec![set(0, 0, "two")] },
            TransactionServer { file_id: 1, id: 12, sequence_num: 1, operations: vec![set(0, 0, "one"), set(1, 0, "one")] },
            TransactionServer { file_id: 1, id: 13, sequence_num: 4, operations: vec![set(2, 0, "four")] },
        ]
    };
    let mut together = GridController::with_sheet(sheet());
    let mut one_by_one = GridController::with_sheet(sheet());
    together.set_cell_value(at(1, 0), "mine".into(), None);
    one_by_one.set_cell_value(at(1, 0), "mine".into(), None);

    let summary = together.received_transactions(&batch()).unwrap();
    for t in batch() {
        one_by_one.received_transaction(t.id, t.sequence_num, t.operations);
    }
    assert!(summary.cell_sheets_modified.contains(sheet()));
    for gc in [&together, &one_by_one] {
        assert_eq!(shown(gc, 0, 0), text("two"));
        assert_eq!(shown(gc, 1, 0), text("mine"));
        assert_eq!(shown(gc, 2, 0), None);
        assert_eq!(gc.transactions.last_sequence_num, 2);
        assert_eq!(gc.transactions.out_of_order_transactions.len(), 1);
        assert_eq!(gc.transactions.unsaved_transactions.len(), 1);
    }
}

#[test]
fn moves_at_the_edge_of_the_grid_leave_in_place_what_cannot_land() {
    let mut gc = GridController::with_sheet(sheet());
    gc.set_cell_value(at(i64::MAX, 0), "edge".into(), None);
    gc.set_cell_value(at(i64::MAX - 1, 0), "near".into(), None);
    gc.start_user_transaction(
        vec![Operation::MoveCells {
            source: SheetRect {
                min: Pos { x: i64::MIN, y: 0 },
                max: Pos { x: i64::MAX, y: 0 },
                sheet_id: sheet(),
            },
            dest: at(i64::MIN + 1, 0),
        }],
        None,
    );
    assert_eq!(shown(&gc, i64::MAX, 0), text("near"));
    assert_eq!(shown(&gc, i64::MAX - 1, 0), None);
    // to a sheet that is not there: the values are lost, as the summary says
    let summary = gc.start_user_transaction(
        vec![Operation::MoveCells {
            source: SheetRect {
                min: Pos { x: i64::MAX, y: 0 },
                max: Pos { x: i64::MAX, y: 0 },
                sheet_id: sheet(),
            },
            dest: SheetPos { x: 0, y: 0, sheet_id: SheetId { id: 1 } },
        }],
        None,
    );
    assert!(summary.skipped_operations);
    assert_eq!(shown(&gc, i64::MAX, 0), None);
}

#[test]
fn a_remote_request_to_run_code_is_skipped_unless_it_is_a_formula() {
    let mut gc = GridController::with_sheet(sheet());
    let code = |language, text: &str| Operation::SetCellValue {
        sheet_pos: at(0, 0),
        value: CellValue::Code(quadratic_core::values::CodeCellValue {
            language,
            code: text.into(),
        }),
    };
    let summary = gc.received_transaction(
        1,
        1,
        vec![code(CodeCellLanguage::Python, "1"), Operation::ComputeCode { sheet_pos: at(0, 0) }],
    );
    assert!(summary.skipped_operations);
    assert_eq!(gc.async_transactions().len(), 0);
    assert_eq!(shown(&gc, 0, 0), None);
    let summary = gc.received_transaction(
        2,
        2,
        vec![code(CodeCellLanguage::Formula, "6 * 7"), Operation::ComputeCode { sheet_pos: at(0, 0) }],
    );
    assert!(!summary.skipped_operations);
    assert_eq!(shown(&gc, 0, 0), Some(CellValue::Number(42)));
    assert_eq!(gc.transactions.last_sequence_num, 2);
}
