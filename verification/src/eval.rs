//! The evaluation layer: what a cell computes.
//!
//! Evaluating a cell follows the references of its formula through the sheet and gives the
//! cell's [`Term`], or the first failure met on the way.

use crate::cell::{CellModel, CellValue};
use crate::error::EvalError;
use crate::formula::{
    law_parsed_is_well_formed, parse_formula, parsed, well_formed, Expr, ExprModel,
};
use crate::sheet::{found, stored, Cells, Sheet};
use crate::term::{is_numeric, Term, TermModel};
use crate::text::{check_decimal, copy_range, is_decimal};
use vstd::prelude::*;
use vstd::utf8::encode_utf8;

verus! {

/// The value of a cell that holds nothing: the double-precision number 0.0, whose bit
/// pattern is 0.
pub open spec fn blank() -> TermModel {
    TermModel::Bits(0)
}

/// How many cells of the sheet are not under evaluation.
pub open spec fn pending(
    cells: Cells,
    visiting: Set<(usize, usize)>,
) -> nat {
    cells.dom().difference(visiting).len()
}

/// Putting a cell of the sheet under evaluation leaves fewer cells that are not.
pub proof fn lemma_pending_decreases(
    cells: Cells,
    visiting: Set<(usize, usize)>,
    coord: (usize, usize),
)
    requires
        cells.dom().finite(),
        cells.contains_key(coord),
        !visiting.contains(coord),
    ensures
        pending(cells, visiting.insert(coord)) < pending(cells, visiting),
{
    let before = cells.dom().difference(visiting);
    let after = cells.dom().difference(visiting.insert(coord));
    assert(after =~= before.remove(coord));
}

/// What `expr` computes in a sheet that holds `cells`, while the cells in `visiting` are
/// under evaluation.
///
/// A literal is its own value. A reference to a cell under evaluation is circular. A
/// reference to a cell that is absent or empty is 0.0; to a number, that number; to a text,
/// the number that the text denotes in decimal notation, and a mismatch if it denotes none;
/// to a formula, what the formula computes while its cell, too, is under evaluation. An
/// operator computes its left operand, then its right one, and fails with the first
/// failure among them.
pub open spec fn resolved(
    cells: Cells,
    expr: ExprModel,
    visiting: Set<(usize, usize)>,
) -> Result<TermModel, EvalError>
    decreases pending(cells, visiting), expr,
    when cells.dom().finite()
{
    match expr {
        ExprModel::Literal(digits) => Ok(TermModel::Decimal(digits)),
        ExprModel::Reference(row, col) => {
            if visiting.contains((row, col)) {
                Err(EvalError::CircularReference(row, col))
            } else {
                match found(cells, row, col) {
                    None | Some(CellModel::Empty) => Ok(blank()),
                    Some(CellModel::Number(bits)) => Ok(TermModel::Bits(bits)),
                    Some(CellModel::Text(text)) => if is_decimal(encode_utf8(text)) {
                        Ok(TermModel::Decimal(encode_utf8(text)))
                    } else {
                        Err(EvalError::TypeMismatch)
                    },
                    Some(CellModel::Formula(source)) => match parsed(encode_utf8(source)) {
                        Err(e) => Err(e),
                        Ok(tree) => {
                            proof {
                                lemma_pending_decreases(cells, visiting, (row, col));
                            }
                            resolved(cells, tree, visiting.insert((row, col)))
                        },
                    },
                }
            }
        },
        ExprModel::Binary(op, left, right) => match resolved(cells, *left, visiting) {
            Err(e) => Err(e),
            Ok(a) => match resolved(cells, *right, visiting) {
                Err(e) => Err(e),
                Ok(b) => Ok(TermModel::Binary(op, Box::new(a), Box::new(b))),
            },
        },
    }
}

/// What the cell at `(row, col)` computes in a sheet that holds `cells`.
pub open spec fn computed(cells: Cells, row: usize, col: usize) -> Result<
    TermModel,
    EvalError,
> {
    resolved(cells, ExprModel::Reference(row, col), Set::empty())
}

/// The mathematical form of an evaluation's result.
pub open spec fn outcome(value: Result<Term, EvalError>) -> Result<TermModel, EvalError> {
    match value {
        Ok(term) => Ok(term@),
        Err(e) => Err(e),
    }
}

/// Whether `(row, col)` is among the cells in `path`.
fn on_path(path: &Vec<(usize, usize)>, row: usize, col: usize) -> (found: bool)
    ensures
        found == path@.to_set().contains((row, col)),
{
    let mut i: usize = 0;
    while i < path.len()
        invariant
            i <= path.len(),
            forall|j: int| 0 <= j < i ==> path@[j] != (row, col),
        decreases path.len() - i,
    {
        if path[i].0 == row && path[i].1 == col {
            return true;
        }
        i += 1;
    }
    false
}

impl Sheet {
    /// Computes `expr` while the cells in `path` are under evaluation.
    fn resolve(&self, expr: &Expr, path: &mut Vec<(usize, usize)>) -> (value: Result<
        Term,
        EvalError,
    >)
        requires
            forall|i: int|
                0 <= i < old(path)@.len() ==> self@.contains_key(#[trigger] old(path)@[i]),
        ensures
            final(path)@ == old(path)@,
            outcome(value) == resolved(self@, expr@, old(path)@.to_set()),
        decreases pending(self@, old(path)@.to_set()), expr,
    {
        proof {
            self.lemma_finite();
        }
        match expr {
            Expr::Literal(digits) => {
                let copy = copy_range(digits.as_slice(), 0, digits.len());
                assert(copy@ =~= digits@);
                Ok(Term::Decimal(copy))
            },
            Expr::Reference(row, col) => {
                if on_path(path, *row, *col) {
                    return Err(EvalError::CircularReference(*row, *col));
                }
                let cell = match self.get_cell(*row, *col) {
                    Some(cell) => cell,
                    None => {
                        return Ok(Term::Bits(0));
                    },
                };
                match &cell.value {
                    CellValue::Empty => Ok(Term::Bits(0)),
                    CellValue::Number(bits) => Ok(Term::Bits(*bits)),
                    CellValue::Text(text) => {
                        let bytes = text.as_str().as_bytes();
                        if check_decimal(bytes) {
                            let copy = copy_range(bytes, 0, bytes.len());
                            assert(copy@ =~= bytes@);
                            Ok(Term::Decimal(copy))
                        } else {
                            Err(EvalError::TypeMismatch)
                        }
                    },
                    CellValue::Formula(source) => {
                        let tree = match parse_formula(source.as_str()) {
                            Ok(tree) => tree,
                            Err(e) => {
                                return Err(e);
                            },
                        };
                        proof {
                            old(path)@.lemma_push_to_set_commute((*row, *col));
                            lemma_pending_decreases(self@, old(path)@.to_set(), (*row, *col));
                        }
                        path.push((*row, *col));
                        let value = self.resolve(&tree, path);
                        path.pop();
                        value
                    },
                }
            },
            Expr::Binary(op, left, right) => {
                let a = match self.resolve(left, path) {
                    Ok(term) => term,
                    Err(e) => {
                        return Err(e);
                    },
                };
                let b = match self.resolve(right, path) {
                    Ok(term) => term,
                    Err(e) => {
                        return Err(e);
                    },
                };
                Ok(Term::Binary(*op, Box::new(a), Box::new(b)))
            },
        }
    }

    /// Computes the value of the cell at `(row, col)`.
    ///
    /// The result is the cell's term, or the first failure met while following its
    /// references: a malformed formula, a reference outside the grid, a text that is no
    /// number, or a reference back to a cell whose formula is being evaluated.
    pub fn evaluate(&self, row: usize, col: usize) -> (value: Result<Term, EvalError>)
        ensures
            outcome(value) == computed(self@, row, col),
            value matches Ok(term) ==> is_numeric(term@),
    {
        let mut path: Vec<(usize, usize)> = Vec::new();
        proof {
            assert(path@.to_set() =~= Set::<(usize, usize)>::empty());
            self.lemma_finite();
            law_terms_are_numeric(self@, ExprModel::Reference(row, col), Set::empty());
        }
        self.resolve(&Expr::Reference(row, col), &mut path)
    }

}

/// Every term has a value: each of its decimals is a number in decimal notation.
pub proof fn law_terms_are_numeric(cells: Cells, expr: ExprModel, visiting: Set<(usize, usize)>)
    requires
        cells.dom().finite(),
        well_formed(expr),
    ensures
        resolved(cells, expr, visiting) matches Ok(term) ==> is_numeric(term),
    decreases pending(cells, visiting), expr,
{
    match expr {
        ExprModel::Literal(_) => {},
        ExprModel::Reference(row, col) => {
            if !visiting.contains((row, col)) {
                if let Some(CellModel::Formula(source)) = found(cells, row, col) {
                    if let Ok(tree) = parsed(encode_utf8(source)) {
                        law_parsed_is_well_formed(encode_utf8(source));
                        lemma_pending_decreases(cells, visiting, (row, col));
                        law_terms_are_numeric(cells, tree, visiting.insert((row, col)));
                    }
                }
            }
        },
        ExprModel::Binary(_, left, right) => {
            law_terms_are_numeric(cells, *left, visiting);
            law_terms_are_numeric(cells, *right, visiting);
        },
    }
}

/// A cell that is absent or empty computes 0.0.
pub proof fn law_blank_is_zero(cells: Cells, row: usize, col: usize)
    requires
        cells.dom().finite(),
        found(cells, row, col) is None || found(cells, row, col) == Some(CellModel::Empty),
    ensures
        computed(cells, row, col) == Ok::<TermModel, EvalError>(blank()),
{
}

/// An expression computes the same whether a coordinate is absent or holds an empty cell.
pub proof fn law_empty_reads_as_absent(
    cells: Cells,
    row: usize,
    col: usize,
    expr: ExprModel,
    visiting: Set<(usize, usize)>,
)
    requires
        cells.dom().finite(),
        !cells.contains_key((row, col)),
    ensures
        resolved(stored(cells, row, col, CellModel::Empty), expr, visiting) == resolved(
            cells,
            expr,
            visiting,
        ),
    decreases pending(cells, visiting), expr,
{
    match expr {
        ExprModel::Literal(_) => {},
        ExprModel::Reference(r, c) => {
            if !visiting.contains((r, c)) {
                if let Some(CellModel::Formula(source)) = found(cells, r, c) {
                    if let Ok(tree) = parsed(encode_utf8(source)) {
                        lemma_pending_decreases(cells, visiting, (r, c));
                        law_empty_reads_as_absent(cells, row, col, tree, visiting.insert((r, c)));
                    }
                }
            }
        },
        ExprModel::Binary(_, left, right) => {
            law_empty_reads_as_absent(cells, row, col, *left, visiting);
            law_empty_reads_as_absent(cells, row, col, *right, visiting);
        },
    }
}

/// A reference to a cell under evaluation fails as circular and names that cell, whatever
/// the cell holds.
pub proof fn law_revisit_is_circular(
    cells: Cells,
    row: usize,
    col: usize,
    visiting: Set<(usize, usize)>,
)
    requires
        cells.dom().finite(),
        visiting.contains((row, col)),
    ensures
        resolved(cells, ExprModel::Reference(row, col), visiting) == Err::<TermModel, EvalError>(
            EvalError::CircularReference(row, col),
        ),
{
}

/// Whether the cell at `from` holds a formula that is nothing but a reference to the cell
/// at `to`.
pub open spec fn refers_to(cells: Cells, from: (usize, usize), to: (usize, usize)) -> bool {
    found(cells, from.0, from.1) matches Some(CellModel::Formula(source)) && parsed(
        encode_utf8(source),
    ) == Ok::<ExprModel, EvalError>(ExprModel::Reference(to.0, to.1))
}

/// The cell that follows the `i`-th cell of a cycle of `len` cells.
pub open spec fn next_in_cycle(i: int, len: int) -> int {
    if i + 1 == len {
        0
    } else {
        i + 1
    }
}

/// Whether the cells of `cycle` differ from each other and each refers to the next, the last
/// one to the first.
pub open spec fn is_cycle(cells: Cells, cycle: Seq<(usize, usize)>) -> bool {
    &&& cycle.len() > 0
    &&& forall|i: int, j: int| 0 <= i < j < cycle.len() ==> cycle[i] != cycle[j]
    &&& forall|i: int|
        0 <= i < cycle.len() ==> refers_to(
            cells,
            #[trigger] cycle[i],
            cycle[next_in_cycle(i, cycle.len() as int)],
        )
}

/// Once the first `i` cells of a cycle are under evaluation, the cell that follows them
/// fails as circular and names the first cell of the cycle.
pub proof fn lemma_cycle_closes(cells: Cells, cycle: Seq<(usize, usize)>, i: int)
    requires
        cells.dom().finite(),
        is_cycle(cells, cycle),
        0 <= i <= cycle.len(),
    ensures
        ({
            let at = cycle[if i == cycle.len() {
                0
            } else {
                i
            }];
            resolved(cells, ExprModel::Reference(at.0, at.1), cycle.subrange(0, i).to_set())
                == Err::<TermModel, EvalError>(
                EvalError::CircularReference(cycle[0].0, cycle[0].1),
            )
        }),
    decreases cycle.len() - i,
{
    let visiting = cycle.subrange(0, i).to_set();
    if i == cycle.len() {
        assert(cycle.subrange(0, i)[0] == cycle[0]);
    } else {
        let at = cycle[i];
        assert(!visiting.contains(at));
        assert(visiting.insert(at) =~= cycle.subrange(0, i + 1).to_set()) by {
            assert(cycle.subrange(0, i + 1) =~= cycle.subrange(0, i).push(at));
            cycle.subrange(0, i).lemma_push_to_set_commute(at);
        }
        lemma_cycle_closes(cells, cycle, i + 1);
    }
}

/// Evaluating a cell of a cycle of references fails as circular and names that cell: it
/// neither runs on nor gives a value.
pub proof fn law_cycle_is_circular(cells: Cells, cycle: Seq<(usize, usize)>)
    requires
        cells.dom().finite(),
        is_cycle(cells, cycle),
    ensures
        computed(cells, cycle[0].0, cycle[0].1) == Err::<TermModel, EvalError>(
            EvalError::CircularReference(cycle[0].0, cycle[0].1),
        ),
{
    assert(cycle.subrange(0, 0).to_set() =~= Set::<(usize, usize)>::empty());
    lemma_cycle_closes(cells, cycle, 0);
}

} // verus!
