//! Computed values.
//!
//! A [`Term`] is the arithmetic that is left of a formula once every reference has been
//! replaced by what its cell holds. It has no reference and no failure in it, so it always
//! has a value, which its user computes in double precision: a decimal by reading its
//! notation, an operator by the operation of the same name.

use crate::formula::BinOp;
use crate::text::is_decimal;
use vstd::prelude::*;

verus! {

/// A computed value, as the arithmetic that gives it.
#[derive(Debug, PartialEq)]
pub enum Term {
    /// A double-precision number, by its IEEE-754 bit pattern.
    Bits(u64),
    /// A number in decimal notation: an optional `-`, digits, and optionally a point and
    /// more digits.
    Decimal(Vec<u8>),
    /// An operator applied to two values, left and right.
    Binary(BinOp, Box<Term>, Box<Term>),
}

/// The mathematical form of a [`Term`].
pub enum TermModel {
    Bits(u64),
    Decimal(Seq<u8>),
    Binary(BinOp, Box<TermModel>, Box<TermModel>),
}

impl Term {
    /// The mathematical form of this term.
    pub open spec fn model(self) -> TermModel
        decreases self,
    {
        match self {
            Term::Bits(bits) => TermModel::Bits(bits),
            Term::Decimal(digits) => TermModel::Decimal(digits@),
            Term::Binary(op, left, right) => TermModel::Binary(
                op,
                Box::new(left.model()),
                Box::new(right.model()),
            ),
        }
    }
}

impl View for Term {
    type V = TermModel;

    open spec fn view(&self) -> TermModel {
        self.model()
    }
}

/// Whether every decimal of `term` is a number in decimal notation.
pub open spec fn is_numeric(term: TermModel) -> bool
    decreases term,
{
    match term {
        TermModel::Bits(_) => true,
        TermModel::Decimal(digits) => is_decimal(digits),
        TermModel::Binary(_, left, right) => is_numeric(*left) && is_numeric(*right),
    }
}

} // verus!
