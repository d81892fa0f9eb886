//! A collaborative spreadsheet core: a grid of sheets, the operations that
//! edit it, and the transaction log that keeps concurrently editing
//! participants converging on the same grid.
//!
//! The sequencer gives every transaction a number. Each participant
//! carries the transactions out in the order of these numbers, underneath
//! the work that it has made itself and that the sequencer has not
//! acknowledged yet. The grid and the edits are in [`grid`] and
//! [`controller::operation`], what carrying out a transaction means in
//! [`controller::execution`], and what is guaranteed of it all in
//! [`controller::guarantees`].

pub mod controller;
pub mod error;
pub mod formulas;
pub mod grid;
pub mod id_set;
pub mod outside;
pub mod pos_map;
pub mod position;
pub mod rooms;
pub mod sequencer;
pub mod sql;
pub mod text;
pub mod values;
pub mod wasm_bindings;

pub use crate::controller::grid_controller::GridController;
pub use crate::controller::operation::Operation;
pub use crate::controller::transaction::TransactionType;
pub use crate::controller::transaction_summary::TransactionSummary;
pub use crate::error::ConnectionError;
pub use crate::grid::sheet::Sheet;
pub use crate::grid::Grid;
pub use crate::position::{Pos, Rect, SheetId, SheetPos, SheetRect};
pub use crate::sql::PostgresConnection;
pub use crate::values::{CellValue, CodeCellLanguage, CodeCellValue, CodeRun, Value};
