use quadratic_core::controller::calculation::JsCodeResult;
use quadratic_core::controller::grid_controller::GridController;
use quadratic_core::controller::operation::Operation;
use quadratic_core::controller::transaction::TransactionServer;
use quadratic_core::position::{Pos, SheetPos};
use quadratic_core::values::{CellValue, CodeCellLanguage, CodeCellValue};
use std::str::FromStr;
use uuid::Uuid;

fn new_id() -> u128 {
    Uuid::new_v4().as_u128()
}

#[test]
fn test_multiplayer_hello_world() {
    let mut gc1 = GridController::new();
    let sheet_id = gc1.sheet_ids()[0];
    let summary = gc1.set_cell_value(
        SheetPos {
            x: 0,
            y: 0,
            sheet_id,
        },
        "Hello World".to_string(),
        None,
    );
    let sheet = gc1.grid().try_sheet(sheet_id).unwrap();
    assert_eq!(
        sheet.get_cell_value(Pos { x: 0, y: 0 }),
        Some(CellValue::Text("Hello World".to_string()))
    );

    let transaction_id = Uuid::from_str(&summary.transaction_id.unwrap())
        .unwrap()
        .as_u128();
    let operations: Vec<Operation> = summary.operations.unwrap();

    // received our own transaction back
    gc1.received_transaction(transaction_id, 1, operations.clone());

    let sheet = gc1.grid().try_sheet(sheet_id).unwrap();
    assert_eq!(
        sheet.get_cell_value(Pos { x: 0, y: 0 }),
        Some(CellValue::Text("Hello World".to_string()))
    );
    assert_eq!(gc1.transactions.unsaved_transactions.len(), 0);

    let mut gc2 = GridController::new();
    gc2.grid_mut().sheets_mut()[0].set_id(sheet_id);
    gc2.received_transaction(transaction_id, 1, operations);
    let sheet = gc2.grid().try_sheet(sheet_id).unwrap();
    assert_eq!(
        sheet.get_cell_value(Pos { x: 0, y: 0 }),
        Some(CellValue::Text("Hello World".to_string()))
    );
}

#[test]
fn test_apply_multiplayer_before_unsaved_transaction() {
    let mut gc1 = GridController::new();
    let sheet_id = gc1.sheet_ids()[0];
    gc1.set_cell_value(
        SheetPos {
            x: 0,
            y: 0,
            sheet_id,
        },
        "Hello World from 1".to_string(),
        None,
    );
    let sheet = gc1.grid().try_sheet(sheet_id).unwrap();
    assert_eq!(
        sheet.get_cell_value(Pos { x: 0, y: 0 }),
        Some(CellValue::Text("Hello World from 1".to_string()))
    );

    let mut gc2 = GridController::new();
    // set gc2's sheet 1's id to gc1 sheet 1's id
    let own = gc2.sheet_ids()[0];
    gc2.grid.try_sheet_mut(own).unwrap().set_id(sheet_id);
    let summary = gc2.set_cell_value(
        SheetPos {
            x: 0,
            y: 0,
            sheet_id,
        },
        "Hello World from 2".to_string(),
        None,
    );
    let sheet = gc2.grid().try_sheet(sheet_id).unwrap();
    assert_eq!(
        sheet.get_cell_value(Pos { x: 0, y: 0 }),
        Some(CellValue::Text("Hello World from 2".to_string()))
    );

    let transaction_id = Uuid::from_str(&summary.transaction_id.unwrap())
        .unwrap()
        .as_u128();
    let operations = summary.operations.unwrap();

    // gc1 should apply gc2's cell value to 0,0 before its unsaved transaction
    // and then reapply its unsaved transaction, overwriting 0,0
    gc1.received_transaction(transaction_id, 1, operations);
    let sheet = gc1.grid.try_sheet(sheet_id).unwrap();
    assert_eq!(
        sheet.get_cell_value(Pos { x: 0, y: 0 }),
        Some(CellValue::Text("Hello World from 1".to_string()))
    );
}

#[test]
fn test_server_apply_transaction() {
    let mut client = GridController::new();
    let sheet_id = client.sheet_ids()[0];
    let summary = client.set_cell_value(
        SheetPos {
            x: 0,
            y: 0,
            sheet_id,
        },
        "Hello World".to_string(),
        None,
    );
    let sheet = client.grid().try_sheet(sheet_id).unwrap();
    assert_eq!(
        sheet.get_cell_value(Pos { x: 0, y: 0 }),
        Some(CellValue::Text("Hello World".to_string()))
    );
    let operations: Vec<Operation> = summary.operations.unwrap();

    let mut server = GridController::new();
    let own = server.sheet_ids()[0];
    server.grid.try_sheet_mut(own).unwrap().set_id(sheet_id);
    server.server_apply_transaction(operations);
    let sheet = server.grid.try_sheet(sheet_id).unwrap();
    assert_eq!(
        sheet.get_cell_value(Pos { x: 0, y: 0 }),
        Some(CellValue::Text("Hello World".to_string()))
    );
}

#[test]
fn test_handle_receipt_of_earlier_transactions() {
    // client is where the multiplayer transactions are applied from other
    let mut client = GridController::new();
    let sheet_id = client.sheet_ids()[0];
    let summary = client.set_cell_value(
        SheetPos {
            x: 0,
            y: 0,
            sheet_id,
        },
        "Client unsaved value".to_string(),
        None,
    );
    assert!(summary.generate_thumbnail);

    // other is where the transaction are created
    let mut other = GridController::new();
    other.grid_mut().sheets_mut()[0].set_id(sheet_id);
    let other_summary = other.set_cell_value(
        SheetPos {
            x: 0,
            y: 0,
            sheet_id,
        },
        "Other value".to_string(),
        None,
    );
    let other_operations: Vec<Operation> = other_summary.operations.unwrap();

    let summary = client.received_transaction(new_id(), 1, other_operations);

    // we should generate the thumbnail as we overwrite the unsaved value again
    assert!(summary.generate_thumbnail);

    // we should still have out unsaved transaction
    assert_eq!(client.transactions.unsaved_transactions.len(), 1);

    // our unsaved value overwrites the older multiplayer value
    assert_eq!(
        client
            .try_sheet(sheet_id)
            .unwrap()
            .get_cell_value(Pos { x: 0, y: 0 }),
        Some(CellValue::Text("Client unsaved value".to_string()))
    );
}

#[test]
fn test_handle_receipt_of_out_of_order_transactions() {
    // client is where the multiplayer transactions are applied from other
    let mut client = GridController::new();
    let sheet_id = client.sheet_ids()[0];

    // other is where the transaction are created
    let mut other = GridController::new();
    other.grid_mut().sheets_mut()[0].set_id(sheet_id);
    let out_of_order_1_summary = other.set_cell_value(
        SheetPos {
            x: 1,
            y: 1,
            sheet_id,
        },
        "This is sequence_num = 1".to_string(),
        None,
    );
    let out_of_order_1_operations = out_of_order_1_summary.operations.unwrap();
    let out_of_order_2 = other.set_cell_value(
        SheetPos {
            x: 2,
            y: 2,
            sheet_id,
        },
        "This is sequence_num = 2".to_string(),
        None,
    );
    let out_of_order_2_operations = out_of_order_2.operations.unwrap();

    // Send sequence_num = 2 first to client. Client stores this transaction in out_of_order_transactions but does not apply it.
    client.received_transaction(new_id(), 2, out_of_order_2_operations);
    assert_eq!(
        client
            .try_sheet(sheet_id)
            .unwrap()
            .get_cell_value(Pos { x: 1, y: 1 }),
        None
    );
    assert_eq!(client.transactions.out_of_order_transactions.len(), 1);

    // We receive the correctly ordered transaction. Both are applied in the correct order.
    client.received_transaction(new_id(), 1, out_of_order_1_operations);
    assert_eq!(
        client
            .try_sheet(sheet_id)
            .unwrap()
            .get_cell_value(Pos { x: 1, y: 1 }),
        Some(CellValue::Text("This is sequence_num = 1".to_string()))
    );
    assert_eq!(
        client
            .try_sheet(sheet_id)
            .unwrap()
            .get_cell_value(Pos { x: 2, y: 2 }),
        Some(CellValue::Text("This is sequence_num = 2".to_string()))
    );
    assert_eq!(client.transactions.out_of_order_transactions.len(), 0);
}

#[test]
fn test_handle_receipt_of_earlier_transactions_and_out_of_order_transactions() {
    let mut client = GridController::new();
    let sheet_id = client.sheet_ids()[0];
    let client_summary = client.set_cell_value(
        SheetPos {
            x: 0,
            y: 0,
            sheet_id,
        },
        "Client unsaved value".to_string(),
        None,
    );

    // other is where the transaction are created
    let mut other = GridController::new();
    other.grid_mut().sheets_mut()[0].set_id(sheet_id);
    let out_of_order_1_summary = other.set_cell_value(
        SheetPos {
            x: 0,
            y: 0,
            sheet_id,
        },
        "This is sequence_num = 1".to_string(),
        None,
    );
    let out_of_order_1_operations = out_of_order_1_summary.operations.unwrap();
    let out_of_order_2 = other.set_cell_value(
        SheetPos {
            x: 0,
            y: 0,
            sheet_id,
        },
        "This is sequence_num = 2".to_string(),
        None,
    );
    let out_of_order_2_operations = out_of_order_2.operations.unwrap();

    // Send sequence_num = 2 first to client. Client stores this transaction in out_of_order_transactions but does not apply it.
    // We should still see our unsaved transaction.
    client.received_transaction(new_id(), 2, out_of_order_2_operations);
    assert_eq!(
        client
            .try_sheet(sheet_id)
            .unwrap()
            .get_cell_value(Pos { x: 0, y: 0 }),
        Some(CellValue::Text("Client unsaved value".to_string()))
    );
    assert_eq!(client.transactions.out_of_order_transactions.len(), 1);
    assert_eq!(client.transactions.unsaved_transactions.len(), 1);

    // We receive the correctly ordered transaction. Both are applied in the correct order.
    client.received_transaction(new_id(), 1, out_of_order_1_operations);
    assert_eq!(
        client
            .try_sheet(sheet_id)
            .unwrap()
            .get_cell_value(Pos { x: 0, y: 0 }),
        Some(CellValue::Text("Client unsaved value".to_string()))
    );
    assert_eq!(client.transactions.out_of_order_transactions.len(), 0);

    // We receive our unsaved transaction back.
    client.received_transaction(
        Uuid::from_str(&client_summary.transaction_id.unwrap())
            .unwrap()
            .as_u128(),
        3,
        client_summary.operations.unwrap(),
    );
    assert_eq!(client.transactions.unsaved_transactions.len(), 0);
    assert_eq!(
        client
            .try_sheet(sheet_id)
            .unwrap()
            .get_cell_value(Pos { x: 0, y: 0 }),
        Some(CellValue::Text("Client unsaved value".to_string()))
    );

    // We undo our old unsaved transaction and it will clear it (since we don't update our undo stack w/server changes).
    client.undo(None);
    assert_eq!(
        client
            .try_sheet(sheet_id)
            .unwrap()
            .get_cell_value(Pos { x: 0, y: 0 }),
        None
    );
}

#[test]
fn test_send_request_transactions() {
    let mut client = GridController::new();
    let sheet_id = client.sheet_ids()[0];

    // other is where the transaction are created
    let mut other = GridController::new();
    other.grid_mut().sheets_mut()[0].set_id(sheet_id);
    let other_1 = other.set_cell_value(
        SheetPos {
            x: 0,
            y: 0,
            sheet_id,
        },
        "This is sequence_num = 1".to_string(),
        None,
    );
    let other_1_operations = other_1.operations.unwrap();
    let other_2 = other.set_cell_value(
        SheetPos {
            x: 1,
            y: 1,
            sheet_id,
        },
        "This is sequence_num = 2".to_string(),
        None,
    );
    let other_2_operations = other_2.operations.unwrap();

    let client_summary = client.receive_sequence_num(2);

    // we send our last_sequence_num + 1 to the server so it can provide all later transactions
    assert_eq!(client.transactions.last_sequence_num, 0);
    assert_eq!(client_summary.request_transactions, Some(1));

    client
        .received_transactions(&[
            TransactionServer {
                file_id: new_id(),
                id: new_id(),
                sequence_num: 1,
                operations: other_1_operations,
            },
            TransactionServer {
                file_id: new_id(),
                id: new_id(),
                sequence_num: 2,
                operations: other_2_operations,
            },
        ])
        .ok();
    assert_eq!(client.transactions.last_sequence_num, 2);

    assert_eq!(
        client
            .try_sheet(sheet_id)
            .unwrap()
            .get_cell_value(Pos { x: 0, y: 0 }),
        Some(CellValue::Text("This is sequence_num = 1".to_string()))
    );
    assert_eq!(
        client
            .try_sheet(sheet_id)
            .unwrap()
            .get_cell_value(Pos { x: 1, y: 1 }),
        Some(CellValue::Text("This is sequence_num = 2".to_string()))
    );
}

#[test]
fn test_receive_multiplayer_while_waiting_for_async() {
    let mut client = GridController::new();
    let sheet_id = client.sheet_ids()[0];

    // other is where the transaction are created
    let mut other = GridController::new();
    other.grid_mut().sheets_mut()[0].set_id(sheet_id);
    let other = other.set_cell_value(
        SheetPos {
            x: 0,
            y: 0,
            sheet_id,
        },
        "From other".to_string(),
        None,
    );
    let other_operations = other.operations.unwrap();

    client.set_code_cell(
        SheetPos {
            x: 1,
            y: 1,
            sheet_id,
        },
        CodeCellLanguage::Python,
        "start this before receiving multiplayer".to_string(),
        None,
    );

    // ensure code_cell exists
    let code_cell = client
        .try_sheet(sheet_id)
        .unwrap()
        .get_cell_value_only(Pos { x: 1, y: 1 });
    assert!(matches!(code_cell, Some(CellValue::Code(_))));

    let transaction_id = client.async_transactions()[0].id;

    // we receive the first transaction while waiting for the async call to complete
    client
        .received_transactions(&[TransactionServer {
            file_id: new_id(),
            id: new_id(),
            sequence_num: 1,
            operations: other_operations,
        }])
        .ok();

    assert_eq!(
        client
            .try_sheet(sheet_id)
            .unwrap()
            .get_cell_value(Pos { x: 0, y: 0 }),
        Some(CellValue::Text("From other".to_string()))
    );

    // ensure code_cell still exists
    let code_cell = client
        .try_sheet(sheet_id)
        .unwrap()
        .get_cell_value_only(Pos { x: 1, y: 1 });
    assert!(matches!(code_cell, Some(CellValue::Code(_))));

    // mock the python calculation returning the result
    let result = client.calculation_complete(JsCodeResult::new_from_rust(
        Uuid::from_u128(transaction_id).to_string(),
        true,
        None,
        None,
        None,
        Some("async output".to_string()),
        None,
        None,
        None,
    ));
    assert!(result.is_ok());

    assert_eq!(
        client
            .try_sheet(sheet_id)
            .unwrap()
            .get_cell_value(Pos { x: 1, y: 1 }),
        Some(CellValue::Text("async output".to_string()))
    );
}

#[test]
fn test_receive_overlapping_multiplayer_while_waiting_for_async() {
    // Unlike previous test, we receive a multiplayer transaction that lands on the cell of
    // the async code_cell. It takes effect at once; the async code_cell overwrites it when
    // it completes.

    let mut client = GridController::new();
    let sheet_id = client.sheet_ids()[0];

    // other is where the transactions are created
    let mut other = GridController::new();
    other.grid_mut().sheets_mut()[0].set_id(sheet_id);
    let other = other.set_cell_value(
        SheetPos {
            x: 0,
            y: 0,
            sheet_id,
        },
        "From other".to_string(),
        None,
    );
    let other_operations = other.operations.unwrap();

    client.set_code_cell(
        SheetPos {
            x: 0,
            y: 0,
            sheet_id,
        },
        CodeCellLanguage::Python,
        "start this before receiving multiplayer".to_string(),
        None,
    );

    // ensure code_cell exists
    let code_cell = client
        .try_sheet(sheet_id)
        .unwrap()
        .get_cell_value_only(Pos { x: 0, y: 0 });
    assert_eq!(
        code_cell,
        Some(CellValue::Code(CodeCellValue {
            language: CodeCellLanguage::Python,
            code: "start this before receiving multiplayer".to_string()
        }))
    );

    let transaction_id = client.async_transactions()[0].id;

    // we receive the first transaction while waiting for the async call to complete
    client
        .received_transactions(&[TransactionServer {
            file_id: new_id(),
            id: new_id(),
            sequence_num: 1,
            operations: other_operations,
        }])
        .ok();

    // the multiplayer transaction is not held back: the cell shows its value
    assert_eq!(
        client
            .try_sheet(sheet_id)
            .unwrap()
            .get_cell_value(Pos { x: 0, y: 0 }),
        Some(CellValue::Text("From other".to_string()))
    );

    // the async transaction still waits
    assert_eq!(client.async_transactions().len(), 1);

    // mock the python calculation returning the result
    let result = client.calculation_complete(JsCodeResult::new_from_rust(
        Uuid::from_u128(transaction_id).to_string(),
        true,
        None,
        None,
        None,
        Some("async output".to_string()),
        None,
        None,
        None,
    ));
    assert!(result.is_ok());

    // the code_cell is back, with its output
    let code_cell = client
        .try_sheet(sheet_id)
        .unwrap()
        .get_cell_value_only(Pos { x: 0, y: 0 });
    assert!(matches!(code_cell, Some(CellValue::Code(_))));
    assert_eq!(
        client
            .try_sheet(sheet_id)
            .unwrap()
            .get_cell_value(Pos { x: 0, y: 0 }),
        Some(CellValue::Text("async output".to_string()))
    );
    assert_eq!(client.async_transactions().len(), 0);
}
