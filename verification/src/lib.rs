//! An in-memory bill manager: a store of named records with a monetary
//! amount, and the menu-driven session logic that drives it from a sequence
//! of input lines.
//!
//! Amounts are carried as their decimal text (the line the operator typed,
//! validated against the numeric grammar in [`amount`]); a front end may
//! parse or format them however it likes.

pub mod amount;
pub mod menu;
pub mod session;
pub mod store;
pub mod text;
