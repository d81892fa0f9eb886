//! Formulas: the language of the code cells that the core evaluates itself.

pub mod eval;
pub mod grammar;
pub mod references;
pub mod run;
