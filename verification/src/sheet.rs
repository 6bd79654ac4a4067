//! The cell store: a sparse mapping from coordinates to cells.
//!
//! A coordinate is a row and a column, both counted from 0. The grid has no bound but that
//! of `usize`. A coordinate that was never written holds no cell, and reads as empty.

use crate::cell::{Cell, CellModel, CellValue};
use std::collections::HashMap;
use vstd::prelude::*;

verus! {

broadcast use vstd::std_specs::hash::group_hash_axioms;

/// What a sheet holds: the value at each coordinate that was written.
pub type Cells = Map<(usize, usize), CellModel>;

/// The cells after `value` was written at `(row, col)`: the value replaces whatever stood
/// there, and every other coordinate stays as it was.
pub open spec fn stored(cells: Cells, row: usize, col: usize, value: CellModel) -> Cells {
    cells.insert((row, col), value)
}

/// The value at `(row, col)`, if that coordinate was written.
pub open spec fn found(cells: Cells, row: usize, col: usize) -> Option<CellModel> {
    if cells.contains_key((row, col)) {
        Some(cells[(row, col)])
    } else {
        None
    }
}

/// One write to a sheet: the row, the column, and the value written there.
pub type Write = (usize, usize, CellModel);

/// The cells of a new sheet after the given writes were made in order.
pub open spec fn written(writes: Seq<Write>) -> Cells
    decreases writes.len(),
{
    if writes.len() == 0 {
        Map::empty()
    } else {
        stored(written(writes.drop_last()), writes.last().0, writes.last().1, writes.last().2)
    }
}

/// Whether none of the writes is to `(row, col)`.
pub open spec fn untouched(writes: Seq<Write>, row: usize, col: usize) -> bool {
    forall|i: int| 0 <= i < writes.len() ==> (#[trigger] writes[i]).0 != row || writes[i].1 != col
}

/// The key under which the cell at `(row, col)` is kept: the row in the high 64 bits, the
/// column in the low 64 bits.
pub open spec fn key_of(row: usize, col: usize) -> u128 {
    (row as u128 * 0x1_0000_0000_0000_0000 + col as u128) as u128
}

/// Computes the key of `(row, col)`.
fn key(row: usize, col: usize) -> (k: u128)
    ensures
        k == key_of(row, col),
{
    (row as u128) * 0x1_0000_0000_0000_0000u128 + (col as u128)
}

/// A sparse grid of cells.
pub struct Sheet {
    cells: HashMap<u128, Cell>,
}

impl View for Sheet {
    type V = Cells;

    closed spec fn view(&self) -> Cells {
        Map::new(
            |c: (usize, usize)| self.cells@.contains_key(key_of(c.0, c.1)),
            |c: (usize, usize)| self.cells@[key_of(c.0, c.1)].value@,
        )
    }
}

impl Sheet {
    /// Every cell is kept under the key of the coordinate that it carries.
    #[verifier::type_invariant]
    spec fn keyed_by_coordinate(&self) -> bool {
        forall|k: u128| #[trigger]
            self.cells@.contains_key(k) ==> k == key_of(self.cells@[k].row, self.cells@[k].col)
    }

    /// A sheet holds finitely many cells.
    pub proof fn lemma_finite(self)
        ensures
            self@.dom().finite(),
    {
        let keys = self.cells@.dom();
        let coordinate = |k: u128|
            ((k / 0x1_0000_0000_0000_0000) as usize, (k % 0x1_0000_0000_0000_0000) as usize);
        keys.lemma_map_finite(coordinate);
        assert forall|c: (usize, usize)| self@.dom().contains(c) implies keys.map(
            coordinate,
        ).contains(c) by {
            assert(keys.contains(key_of(c.0, c.1)));
        }
        vstd::set_lib::lemma_set_subset_finite(keys.map(coordinate), self@.dom());
    }

    /// A sheet without cells.
    pub fn new() -> (sheet: Sheet)
        ensures
            sheet@ == written(Seq::empty()),
            sheet@ == Map::<(usize, usize), CellModel>::empty(),
    {
        Sheet { cells: HashMap::new() }
    }

    /// Writes `value` at `(row, col)`. The value that stood there before, if any, is
    /// discarded.
    pub fn set_cell(&mut self, row: usize, col: usize, value: CellValue)
        ensures
            final(self)@ == stored(old(self)@, row, col, value@),
    {
        proof {
            use_type_invariant(&*self);
        }
        let cell = Cell { value, row, col };
        let mut cells: HashMap<u128, Cell> = HashMap::new();
        std::mem::swap(&mut self.cells, &mut cells);
        cells.insert(key(row, col), cell);
        std::mem::swap(&mut self.cells, &mut cells);
    }

    /// The cell at `(row, col)`, if that coordinate was written. The cell carries the
    /// coordinate that it was asked for.
    pub fn get_cell(&self, row: usize, col: usize) -> (cell: Option<&Cell>)
        ensures
            match cell {
                Some(cell) => found(self@, row, col) == Some(cell.value@) && cell.row == row
                    && cell.col == col,
                None => found(self@, row, col) is None,
            },
    {
        proof {
            use_type_invariant(self);
        }
        self.cells.get(&key(row, col))
    }
}

impl Default for Sheet {
    /// A sheet without cells.
    fn default() -> (sheet: Sheet)
        ensures
            sheet@ == written(Seq::empty()),
    {
        Sheet::new()
    }
}

/// The cells that finitely many writes leave are finitely many.
pub proof fn lemma_written_is_finite(writes: Seq<Write>)
    ensures
        written(writes).dom().finite(),
    decreases writes.len(),
{
    if writes.len() > 0 {
        lemma_written_is_finite(writes.drop_last());
    }
}

/// Reading a coordinate right after writing it gives the value that was written.
pub proof fn law_read_after_write(cells: Cells, row: usize, col: usize, value: CellModel)
    ensures
        found(stored(cells, row, col, value), row, col) == Some(value),
{
}

/// Writing a coordinate leaves every other coordinate as it was.
pub proof fn law_write_is_local(
    cells: Cells,
    row: usize,
    col: usize,
    value: CellModel,
    other_row: usize,
    other_col: usize,
)
    requires
        (other_row, other_col) != (row, col),
    ensures
        found(stored(cells, row, col, value), other_row, other_col) == found(
            cells,
            other_row,
            other_col,
        ),
{
}

/// Of two writes to one coordinate only the second counts: the sheet is the one that the
/// second write alone would have given, and reading the coordinate gives the second value.
pub proof fn law_overwrite(
    cells: Cells,
    row: usize,
    col: usize,
    first: CellModel,
    second: CellModel,
)
    ensures
        stored(stored(cells, row, col, first), row, col, second) == stored(
            cells,
            row,
            col,
            second,
        ),
        found(stored(stored(cells, row, col, first), row, col, second), row, col) == Some(second),
{
    assert(stored(stored(cells, row, col, first), row, col, second) =~= stored(
        cells,
        row,
        col,
        second,
    ));
}

/// A coordinate that none of the writes to a new sheet names holds no cell.
pub proof fn law_never_written(writes: Seq<Write>, row: usize, col: usize)
    requires
        untouched(writes, row, col),
    ensures
        found(written(writes), row, col) is None,
    decreases writes.len(),
{
    if writes.len() > 0 {
        let earlier = writes.drop_last();
        assert forall|i: int| 0 <= i < earlier.len() implies (#[trigger] earlier[i]).0 != row
            || earlier[i].1 != col by {
            assert(earlier[i] == writes[i]);
        }
        law_never_written(earlier, row, col);
    }
}

/// A coordinate holds the value of the last write to it, whatever was written elsewhere
/// afterwards.
pub proof fn law_last_write_wins(writes: Seq<Write>, last: int)
    requires
        0 <= last < writes.len(),
        untouched(writes.subrange(last + 1, writes.len() as int), writes[last].0, writes[last].1),
    ensures
        found(written(writes), writes[last].0, writes[last].1) == Some(writes[last].2),
    decreases writes.len(),
{
    if last < writes.len() - 1 {
        let earlier = writes.drop_last();
        let later = writes.subrange(last + 1, writes.len() as int);
        let between = earlier.subrange(last + 1, earlier.len() as int);
        assert forall|i: int| 0 <= i < between.len() implies (#[trigger] between[i]).0
            != earlier[last].0 || between[i].1 != earlier[last].1 by {
            assert(between[i] == later[i]);
        }
        law_last_write_wins(earlier, last);
        assert(writes.last() == later[later.len() - 1]);
    }
}

} // verus!
