//! Results of code that ran outside the core.

use crate::controller::execution::model::lemma_run_keeps;
use crate::controller::execution::receive_multiplayer::CoreError;
use crate::controller::execution::{finalized, started};
use crate::controller::grid_controller::{ControllerView, GridController};
use crate::controller::operation::Operation;
use crate::controller::pending_transaction::{AsyncRequest, PendingView};
use crate::controller::transaction_summary::{SummaryView, TransactionSummary};
use crate::controller::transactions::async_index;
use crate::formulas::grammar::CELL_RANGE_LIMIT;
use crate::outside::{make_string, parse_uuid, text_string, uuid_text, uuid_value};
use crate::position::SheetRect;
use crate::values::{Array, CellValue, CellValues, CodeRun, CodeRunResult, Value};
use crate::controller::undo_records::{completion_keeps_stacks, stacks_primitive};
use vstd::prelude::*;

verus! {

/// What running a code cell outside the core gave.
#[derive(Debug)]
pub struct JsCodeResult {
    /// The identifier of the transaction that waits for the result, as text.
    pub transaction_id: String,
    pub success: bool,
    pub formatted_code: Option<String>,
    pub error_msg: Option<String>,
    pub input_python_std_out: Option<String>,
    /// The value, where the code gave one value.
    pub output_value: Option<String>,
    /// The values row by row, where the code gave a block of values.
    pub array_output: Option<Vec<Vec<String>>>,
    pub line_number: Option<u32>,
    pub cancel_compute: Option<bool>,
}

/// The values of `rows` from the cell with the number `index` on, for a
/// block that is `width` cells wide and has `total` cells. A row that is
/// too short is filled up with empty cells.
pub open spec fn rows_list(rows: Seq<Vec<String>>, width: int, index: int, total: int) -> CellValues
    decreases total - index,
{
    if index < 0 || index >= total || width <= 0 {
        CellValues::Nil
    } else {
        let row = index / width;
        let column = index % width;
        CellValues::Cons(
            if 0 <= row < rows.len() && column < rows[row]@.len() {
                CellValue::spec_from_text(rows[row]@[column])
            } else {
                CellValue::Blank
            },
            Box::new(rows_list(rows, width, index + 1, total)),
        )
    }
}

/// What the block `rows` gives: a block as high as there are rows and as
/// wide as the first row, or a failure where that is no block or has too
/// many cells.
pub open spec fn rows_result(rows: Seq<Vec<String>>) -> CodeRunResult {
    if rows.len() == 0 || rows[0]@.len() == 0 || rows.len() > CELL_RANGE_LIMIT
        || rows[0]@.len() > CELL_RANGE_LIMIT || rows.len() * rows[0]@.len()
        > CELL_RANGE_LIMIT {
        CodeRunResult::Failed(text_string("Too many cells"@))
    } else {
        CodeRunResult::Output(
            Value::Array(
                Array {
                    width: rows[0]@.len() as u32,
                    height: rows.len() as u32,
                    values: rows_list(
                        rows,
                        rows[0]@.len() as int,
                        0,
                        (rows.len() * rows[0]@.len()) as int,
                    ),
                },
            ),
        )
    }
}

impl JsCodeResult {
    /// A result with the given parts.
    pub fn new_from_rust(
        transaction_id: String,
        success: bool,
        formatted_code: Option<String>,
        error_msg: Option<String>,
        input_python_std_out: Option<String>,
        output_value: Option<String>,
        array_output: Option<Vec<Vec<String>>>,
        line_number: Option<u32>,
        cancel_compute: Option<bool>,
    ) -> (r: Self)
        ensures
            r == (JsCodeResult {
                transaction_id,
                success,
                formatted_code,
                error_msg,
                input_python_std_out,
                output_value,
                array_output,
                line_number,
                cancel_compute,
            }),
    {
        JsCodeResult {
            transaction_id,
            success,
            formatted_code,
            error_msg,
            input_python_std_out,
            output_value,
            array_output,
            line_number,
            cancel_compute,
        }
    }

    /// The run that the result stands for: a failure with its message, a
    /// block of values, one value, or an empty cell.
    pub open spec fn spec_code_run(&self) -> CodeRun {
        CodeRun {
            result: if !self.success {
                CodeRunResult::Failed(
                    match self.error_msg {
                        Some(m) => m,
                        None => text_string(""@),
                    },
                )
            } else {
                match self.array_output {
                    Some(rows) => rows_result(rows@),
                    None => CodeRunResult::Output(
                        Value::Single(
                            match self.output_value {
                                Some(v) => CellValue::spec_from_text(v),
                                None => CellValue::Blank,
                            },
                        ),
                    ),
                }
            },
            spill_error: false,
        }
    }

    #[verifier::when_used_as_spec(spec_code_run)]
    pub fn code_run(&self) -> (r: CodeRun)
        ensures
            r == self.spec_code_run(),
    {
        let result = if !self.success {
            CodeRunResult::Failed(
                match &self.error_msg {
                    Some(m) => m.clone(),
                    None => make_string(""),
                },
            )
        } else {
            match &self.array_output {
                Some(rows) => read_rows(rows),
                None => CodeRunResult::Output(
                    Value::Single(
                        match &self.output_value {
                            Some(v) => CellValue::from_text(v.clone()),
                            None => CellValue::Blank,
                        },
                    ),
                ),
            }
        };
        CodeRun { result, spill_error: false }
    }
}

/// What the block `rows` gives.
fn read_rows(rows: &Vec<Vec<String>>) -> (r: CodeRunResult)
    ensures
        r == rows_result(rows@),
{
    let h = rows.len();
    if h == 0 {
        return CodeRunResult::Failed(make_string("Too many cells"));
    }
    let w = rows[0].len();
    if w == 0 || h > CELL_RANGE_LIMIT as usize || w > CELL_RANGE_LIMIT as usize {
        return CodeRunResult::Failed(make_string("Too many cells"));
    }
    assert(0 < w * h <= 1_000_000 * 1_000_000) by (nonlinear_arith)
        requires
            0 < w <= 1_000_000,
            0 < h <= 1_000_000,
    ;
    let total: u64 = h as u64 * w as u64;
    assert(total == rows@.len() * rows@[0]@.len()) by (nonlinear_arith)
        requires
            total == h * w,
            h == rows@.len(),
            w == rows@[0]@.len(),
    ;
    if total > CELL_RANGE_LIMIT as u64 {
        return CodeRunResult::Failed(make_string("Too many cells"));
    }
    let mut list = CellValues::Nil;
    let mut index: u64 = total;
    while index > 0
        invariant
            0 <= index <= total,
            total == h * w,
            0 < w <= 1_000_000,
            0 < h <= 1_000_000,
            h == rows@.len(),
            list == rows_list(rows@, w as int, index as int, total as int),
        decreases index,
    {
        index -= 1;
        assert(0 <= index as int / w as int && (index as int / w as int) < h && 0 <= index as int
            % w as int && (index as int % w as int) < w) by (nonlinear_arith)
            requires
                0 <= index < h * w,
                0 < w,
        ;
        let row = (index / w as u64) as usize;
        let column = (index % w as u64) as usize;
        let value = if column < rows[row].len() {
            CellValue::from_text(rows[row][column].clone())
        } else {
            CellValue::Blank
        };
        list = CellValues::Cons(value, Box::new(list));
    }
    CodeRunResult::Output(Value::Array(Array { width: w as u32, height: h as u32, values: list }))
}

/// The edits with which a suspended transaction goes on once `run` has
/// come in for the code cell it waited for: the code cell is stored
/// again, over whatever has been put in its place meanwhile, and then
/// its run. The code cells that reach the cell are checked for spills
/// before the others.
pub open spec fn resume_ops(request: AsyncRequest, run: CodeRun) -> Seq<Operation> {
    seq![
        Operation::SetCellValue {
            sheet_pos: request.sheet_pos,
            value: CellValue::Code(request.code_cell),
        },
        Operation::SetCodeRun { sheet_pos: request.sheet_pos, code_run: Some(run) },
        Operation::CheckSpills {
            sheet_rect: SheetRect {
                min: request.sheet_pos.spec_pos(),
                max: request.sheet_pos.spec_pos(),
                sheet_id: request.sheet_pos.sheet_id,
            },
        },
        Operation::CheckAllSpills { sheet_id: request.sheet_pos.sheet_id },
    ]
}

/// What the arrival of `run` for the suspended transaction `id` does:
/// the transaction goes on with the edits of `resume_ops` and then with
/// what was left of its queue, and is kept or put aside as `finalized`
/// says. There is an error, and no change, where no suspended
/// transaction has the identifier.
pub open spec fn completed(c: ControllerView, id: u128, run: CodeRun) -> Result<
    (ControllerView, SummaryView),
    CoreError,
> {
    match async_index(c.log.async_transactions, id) {
        Some(i) => match c.log.async_transactions[i].waiting_for_async {
            Some(request) => {
                let t = c.log.async_transactions[i];
                let (c1, t1) = started(
                    c,
                    PendingView {
                        waiting_for_async: None,
                        operations: resume_ops(request, run) + t.operations,
                        ..t
                    },
                );
                Ok((finalized(c1, t1), t1.prepare_summary(t1.complete, uuid_text(id))))
            },
            None => Err(CoreError::TransactionNotFound),
        },
        None => Err(CoreError::TransactionNotFound),
    }
}

impl GridController {
    /// Takes in the run that code outside the core gave for the
    /// suspended transaction `id`: see [`completed`].
    pub fn complete_async(&mut self, id: u128, run: CodeRun) -> (r: Result<
        TransactionSummary,
        CoreError,
    >)
        requires
            old(self).grid.wf(),
        ensures
            final(self).grid.wf(),
            match completed(old(self)@, id, run) {
                Ok((c, s)) => r is Ok && final(self)@ == c && r->Ok_0@ == s,
                Err(e) => r == Err::<TransactionSummary, CoreError>(e) && final(self)@ == old(
                    self,
                )@,
            },
            stacks_primitive(old(self)@) ==> stacks_primitive(final(self)@),
    {
        proof {
            if stacks_primitive(self@) && completed(self@, id, run) is Ok {
                completion_keeps_stacks(self@, id, run);
            }
        }
        let index = match self.transactions.find_async_transaction(id) {
            Some(i) => i,
            None => {
                return Err(CoreError::TransactionNotFound);
            },
        };
        let mut transaction = self.transactions.async_transactions[index].clone();
        let request = match &transaction.waiting_for_async {
            Some(request) => request.clone(),
            None => {
                return Err(CoreError::TransactionNotFound);
            },
        };
        let ghost rest = transaction.operations@;
        transaction.waiting_for_async = None;
        transaction.operations.push_front(
            Operation::CheckAllSpills { sheet_id: request.sheet_pos.sheet_id },
        );
        transaction.operations.push_front(
            Operation::CheckSpills { sheet_rect: SheetRect::single_sheet_pos(request.sheet_pos) },
        );
        transaction.operations.push_front(
            Operation::SetCodeRun { sheet_pos: request.sheet_pos, code_run: Some(run) },
        );
        transaction.operations.push_front(
            Operation::SetCellValue {
                sheet_pos: request.sheet_pos,
                value: CellValue::Code(request.code_cell),
            },
        );
        proof {
            assert(transaction.operations@ =~= resume_ops(request, run) + rest);
            lemma_run_keeps(self.grid@, transaction@);
        }
        self.start_transaction(&mut transaction);
        let summary = transaction.prepare_summary(transaction.complete);
        self.finalize_transaction(&mut transaction);
        Ok(summary)
    }

    /// Takes in what code outside the core gave. The result names the
    /// transaction that waits for it.
    pub fn calculation_complete(&mut self, result: JsCodeResult) -> (r: Result<
        TransactionSummary,
        CoreError,
    >)
        requires
            old(self).grid.wf(),
        ensures
            final(self).grid.wf(),
            match uuid_value(result.transaction_id@) {
                Some(id) => match completed(old(self)@, id, result.spec_code_run()) {
                    Ok((c, s)) => r is Ok && final(self)@ == c && r->Ok_0@ == s,
                    Err(e) => r == Err::<TransactionSummary, CoreError>(e) && final(self)@
                        == old(self)@,
                },
                None => r == Err::<TransactionSummary, CoreError>(
                    CoreError::InvalidTransactionId,
                ) && final(self)@ == old(self)@,
            },
            stacks_primitive(old(self)@) ==> stacks_primitive(final(self)@),
    {
        match parse_uuid(result.transaction_id.as_str()) {
            Some(id) => self.complete_async(id, result.code_run()),
            None => Err(CoreError::InvalidTransactionId),
        }
    }
}

} // verus!
