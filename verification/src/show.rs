//! What a cell shows, and what it offers for editing.

use crate::cell::{entered, CellModel, CellValue};
use crate::error::EvalError;
use crate::eval::{blank, computed, law_empty_reads_as_absent};
use crate::formula::{parsed, ExprModel};
use crate::sheet::{
    found, law_never_written, lemma_written_is_finite, stored, untouched, written, Cells, Sheet,
    Write,
};
use crate::term::{is_numeric, Term, TermModel};
use vstd::prelude::*;
use vstd::utf8::encode_utf8;

verus! {

/// What a cell shows.
#[derive(Debug, PartialEq)]
pub enum Shown {
    /// A text, shown as it stands.
    Text(String),
    /// A number, shown in its canonical decimal notation: the term that computes it.
    Number(Term),
    /// The error marker; the error says why for diagnostics.
    Error(EvalError),
}

/// The mathematical form of a [`Shown`].
pub enum ShownModel {
    Text(Seq<char>),
    Number(TermModel),
    Error(EvalError),
}

impl View for Shown {
    type V = ShownModel;

    open spec fn view(&self) -> ShownModel {
        match self {
            Shown::Text(text) => ShownModel::Text(text@),
            Shown::Number(term) => ShownModel::Number(term@),
            Shown::Error(e) => ShownModel::Error(*e),
        }
    }
}

/// What the cell at `(row, col)` shows in a sheet that holds `cells`: nothing where it is
/// absent or empty, a text as it stands, a number as a number, and a formula as the number
/// that it computes or as the error that keeps it from computing one.
pub open spec fn displayed(cells: Cells, row: usize, col: usize) -> ShownModel {
    match found(cells, row, col) {
        None | Some(CellModel::Empty) => ShownModel::Text(Seq::empty()),
        Some(CellModel::Text(text)) => ShownModel::Text(text),
        Some(CellModel::Number(bits)) => ShownModel::Number(TermModel::Bits(bits)),
        Some(CellModel::Formula(_)) => match computed(cells, row, col) {
            Ok(term) => ShownModel::Number(term),
            Err(e) => ShownModel::Error(e),
        },
    }
}

/// What the cell at `(row, col)` offers for editing in a sheet that holds `cells`: nothing
/// where it is absent or empty, a text as it stands, a number as a number, and a formula as
/// its source, without a `=` before it.
pub open spec fn editable(cells: Cells, row: usize, col: usize) -> ShownModel {
    match found(cells, row, col) {
        None | Some(CellModel::Empty) => ShownModel::Text(Seq::empty()),
        Some(CellModel::Text(text)) => ShownModel::Text(text),
        Some(CellModel::Number(bits)) => ShownModel::Number(TermModel::Bits(bits)),
        Some(CellModel::Formula(source)) => ShownModel::Text(source),
    }
}

/// The text that stands for a cell whose formula has no value.
pub open spec fn error_marker_text() -> Seq<char> {
    "#ERR"@
}

/// The text that stands for a cell whose formula has no value.
pub fn error_marker() -> (marker: String)
    ensures
        marker@ == error_marker_text(),
{
    "#ERR".to_owned()
}

impl Shown {
    /// The text on the cell where no number has to be written out: a text as it stands,
    /// and the error marker for an error.
    pub fn text(&self) -> (text: Option<String>)
        ensures
            match self@ {
                ShownModel::Text(shown) => text matches Some(t) && t@ == shown,
                ShownModel::Number(_) => text is None,
                ShownModel::Error(_) => text matches Some(t) && t@ == error_marker_text(),
            },
    {
        match self {
            Shown::Text(text) => Some(text.clone()),
            Shown::Number(_) => None,
            Shown::Error(_) => Some(error_marker()),
        }
    }
}

impl Sheet {
    /// What the cell at `(row, col)` shows. A formula that fails shows as an error; the
    /// failure is never raised.
    pub fn display(&self, row: usize, col: usize) -> (shown: Shown)
        ensures
            shown@ == displayed(self@, row, col),
            shown matches Shown::Number(term) ==> is_numeric(term@),
    {
        match self.get_cell(row, col) {
            None => Shown::Text(String::new()),
            Some(cell) => match &cell.value {
                CellValue::Empty => Shown::Text(String::new()),
                CellValue::Text(text) => Shown::Text(text.clone()),
                CellValue::Number(bits) => Shown::Number(Term::Bits(*bits)),
                CellValue::Formula(_) => match self.evaluate(row, col) {
                    Ok(term) => Shown::Number(term),
                    Err(e) => Shown::Error(e),
                },
            },
        }
    }

    /// What the cell at `(row, col)` offers for editing. A formula offers its source alone:
    /// the `=` that marks a formula when it is typed is no part of it.
    pub fn input_text(&self, row: usize, col: usize) -> (shown: Shown)
        ensures
            shown@ == editable(self@, row, col),
    {
        match self.get_cell(row, col) {
            None => Shown::Text(String::new()),
            Some(cell) => match &cell.value {
                CellValue::Empty => Shown::Text(String::new()),
                CellValue::Text(text) => Shown::Text(text.clone()),
                CellValue::Number(bits) => Shown::Number(Term::Bits(*bits)),
                CellValue::Formula(source) => Shown::Text(source.clone()),
            },
        }
    }
}

/// A coordinate that none of the writes to a new sheet names shows nothing and computes 0.0.
pub proof fn law_never_written_shows_nothing(writes: Seq<Write>, row: usize, col: usize)
    requires
        untouched(writes, row, col),
    ensures
        displayed(written(writes), row, col) == ShownModel::Text(Seq::empty()),
        computed(written(writes), row, col) == Ok::<TermModel, EvalError>(blank()),
{
    law_never_written(writes, row, col);
    lemma_written_is_finite(writes);
}

/// Typing what a text cell offers for editing gives the cell's value back, unless the text
/// starts with `=`.
pub proof fn law_edit_round_trip(cells: Cells, row: usize, col: usize, text: Seq<char>)
    requires
        found(cells, row, col) == Some(CellModel::Text(text)),
        !(text.len() > 0 && text[0] == '='),
    ensures
        editable(cells, row, col) == ShownModel::Text(text),
        Some(entered(text)) == found(cells, row, col),
{
}

/// No reader tells an empty cell from an absent one: with an empty cell written at a
/// coordinate that held none, every cell computes and shows what it did before.
pub proof fn law_empty_cell_changes_nothing(
    cells: Cells,
    row: usize,
    col: usize,
    read_row: usize,
    read_col: usize,
)
    requires
        cells.dom().finite(),
        !cells.contains_key((row, col)),
    ensures
        computed(stored(cells, row, col, CellModel::Empty), read_row, read_col) == computed(
            cells,
            read_row,
            read_col,
        ),
        displayed(stored(cells, row, col, CellModel::Empty), read_row, read_col) == displayed(
            cells,
            read_row,
            read_col,
        ),
{
    law_empty_reads_as_absent(
        cells,
        row,
        col,
        ExprModel::Reference(read_row, read_col),
        Set::empty(),
    );
}

/// A cell whose formula is malformed computes nothing and shows the error, which is the
/// fault of its own text.
pub proof fn law_malformed_formula_shows_error(cells: Cells, row: usize, col: usize, e: EvalError)
    requires
        cells.dom().finite(),
        found(cells, row, col) matches Some(CellModel::Formula(source)) && parsed(
            encode_utf8(source),
        ) == Err::<ExprModel, EvalError>(e),
    ensures
        computed(cells, row, col) == Err::<TermModel, EvalError>(e),
        displayed(cells, row, col) == ShownModel::Error(e),
{
}

} // verus!
