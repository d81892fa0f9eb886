//! The controller of a grid: it carries out transactions, keeps the log of
//! what the sequencer has and has not yet acknowledged, and holds the undo
//! and redo stacks.

pub mod any_order;
pub mod batches;
pub mod calculation;
pub mod convergence;
pub mod execution;
pub mod grid_controller;
pub mod guarantees;
pub mod layers;
pub mod log_order;
pub mod operation;
pub mod pending_transaction;
pub mod spills;
pub mod suspended;
pub mod transaction;
pub mod transaction_summary;
pub mod transactions;
pub mod undo_records;
pub mod update_code_cell_value;
pub mod user_actions;
