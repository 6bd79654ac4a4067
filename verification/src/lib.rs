//! A sparse spreadsheet grid and the evaluation of its cells.
//!
//! A [`sheet::Sheet`] stores the values that were written, by row and column. Its cells are
//! read through [`sheet::Sheet::get_cell`], computed through [`sheet::Sheet::evaluate`] and
//! shown through [`sheet::Sheet::display`].

pub mod cell;
pub mod error;
pub mod eval;
pub mod formula;
pub mod notation;
pub mod sheet;
pub mod show;
pub mod term;
pub mod text;
