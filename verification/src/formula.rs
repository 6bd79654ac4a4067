//! Formulas: their trees, their grammar, and the parser.
//!
//! A formula is an arithmetic expression over decimal literals and cell references:
//!
//! ```text
//! sum       = product { ("+" | "-") product }
//! product   = operand { ("*" | "/") operand }
//! operand   = literal | reference | "(" sum ")"
//! literal   = digit { digit } [ "." digit { digit } ]
//! reference = letter { letter } digit { digit }
//! ```
//!
//! Operators of one level associate to the left. Spaces and tabs may stand between the
//! parts. A reference names its column by letters (`A` is column 0, `Z` column 25, `AA`
//! column 26; the case of a letter does not matter) and its row by a number from 1 (`A1` is
//! row 0, column 0).

use crate::error::{EvalError, Fault};
use crate::text::{
    byte_is_symbol, copy_range, is_digit, is_letter, is_literal, lemma_column_is_positive,
    lemma_literal_at, lemma_run_end, lemma_skip_blanks, literal_end, numeral_value, read_numeral,
    run_end,
    scan_blanks, scan_literal, scan_run, skip_blanks, Numeral,
};
use vstd::prelude::*;
use vstd::utf8::encode_utf8;

verus! {

/// The four operators.
#[derive(Debug, Clone, Copy, PartialEq, Eq, Structural)]
pub enum BinOp {
    Add,
    Sub,
    Mul,
    Div,
}

/// A formula as a tree.
#[derive(Debug, PartialEq)]
pub enum Expr {
    /// A number in decimal notation: the bytes of the literal.
    Literal(Vec<u8>),
    /// Another cell, by row and column.
    Reference(usize, usize),
    /// An operator and its two operands, left and right.
    Binary(BinOp, Box<Expr>, Box<Expr>),
}

/// The mathematical form of an [`Expr`].
pub enum ExprModel {
    Literal(Seq<u8>),
    Reference(usize, usize),
    Binary(BinOp, Box<ExprModel>, Box<ExprModel>),
}

impl Expr {
    /// The mathematical form of this tree.
    pub open spec fn model(self) -> ExprModel
        decreases self,
    {
        match self {
            Expr::Literal(digits) => ExprModel::Literal(digits@),
            Expr::Reference(row, col) => ExprModel::Reference(row, col),
            Expr::Binary(op, left, right) => ExprModel::Binary(
                op,
                Box::new(left.model()),
                Box::new(right.model()),
            ),
        }
    }
}

impl View for Expr {
    type V = ExprModel;

    open spec fn view(&self) -> ExprModel {
        self.model()
    }
}

/// What reading one part of a formula gives: its tree and the number of bytes read, or the
/// error that stopped the reading.
pub type Piece = Result<(ExprModel, nat), EvalError>;

/// The bytes of `s` from `pos` on that are still to read.
pub open spec fn unread(s: Seq<u8>, pos: int) -> nat {
    if pos < s.len() {
        (s.len() - pos) as nat
    } else {
        0
    }
}

/// The same piece, read from `by` bytes further to the left.
pub open spec fn widened(piece: Piece, by: int) -> Piece {
    match piece {
        Ok((tree, used)) => Ok((tree, (used + by) as nat)),
        Err(e) => Err(e),
    }
}

/// The operator of a sum that `b` denotes.
pub open spec fn additive(b: u8) -> Option<BinOp> {
    if b == 0x2b {
        Some(BinOp::Add)
    } else if b == 0x2d {
        Some(BinOp::Sub)
    } else {
        None
    }
}

/// The operator of a product that `b` denotes.
pub open spec fn multiplicative(b: u8) -> Option<BinOp> {
    if b == 0x2a {
        Some(BinOp::Mul)
    } else if b == 0x2f {
        Some(BinOp::Div)
    } else {
        None
    }
}

/// The reference that starts at `pos`, where a letter stands.
pub open spec fn reference_at(s: Seq<u8>, pos: int) -> Piece {
    let letters_end = run_end(s, pos, Numeral::Column);
    let digits_end = run_end(s, letters_end, Numeral::Decimal);
    let column = numeral_value(Numeral::Column, s.subrange(pos, letters_end));
    let row = numeral_value(Numeral::Decimal, s.subrange(letters_end, digits_end));
    if digits_end == letters_end {
        Err(EvalError::ParseError(letters_end as usize, Fault::ExpectedRowNumber))
    } else if row == 0 {
        Err(EvalError::ParseError(letters_end as usize, Fault::RowZero))
    } else if row - 1 > usize::MAX || column - 1 > usize::MAX {
        Err(EvalError::ReferenceOutOfDomain)
    } else {
        Ok(
            (
                ExprModel::Reference((row - 1) as usize, (column - 1) as usize),
                (digits_end - pos) as nat,
            ),
        )
    }
}

/// The literal that starts at `pos`, where a digit stands.
pub open spec fn literal_at(s: Seq<u8>, pos: int) -> Piece {
    match literal_end(s, pos) {
        Ok(end) => Ok((ExprModel::Literal(s.subrange(pos, end)), (end - pos) as nat)),
        Err(at) => Err(EvalError::ParseError(at as usize, Fault::ExpectedFraction)),
    }
}

/// The operand that starts at or after `pos`, behind blanks.
pub open spec fn operand(s: Seq<u8>, pos: int) -> Piece
    decreases unread(s, pos), 0nat,
{
    let start = skip_blanks(s, pos);
    if !(0 <= pos <= start < s.len()) {
        Err(EvalError::ParseError(start as usize, Fault::UnexpectedEnd))
    } else if is_digit(s[start]) {
        widened(literal_at(s, start), start - pos)
    } else if is_letter(s[start]) {
        widened(reference_at(s, start), start - pos)
    } else if s[start] == 0x28 {
        match sum(s, start + 1) {
            Err(e) => Err(e),
            Ok((inner, used)) => {
                let close = skip_blanks(s, start + 1 + used);
                if close < s.len() && s[close] == 0x29 {
                    Ok((inner, (close + 1 - pos) as nat))
                } else {
                    Err(EvalError::ParseError(close as usize, Fault::ExpectedCloseParen))
                }
            },
        }
    } else {
        Err(EvalError::ParseError(start as usize, Fault::ExpectedOperand))
    }
}

/// What follows the operands of a product that were read so far, `left` being their tree.
pub open spec fn product_rest(s: Seq<u8>, pos: int, left: ExprModel) -> Piece
    decreases unread(s, pos), 1nat,
{
    let at = skip_blanks(s, pos);
    if 0 <= pos <= at < s.len() && multiplicative(s[at]) is Some {
        match operand(s, at + 1) {
            Err(e) => Err(e),
            Ok((right, used)) => widened(
                product_rest(
                    s,
                    at + 1 + used,
                    ExprModel::Binary(multiplicative(s[at])->0, Box::new(left), Box::new(right)),
                ),
                at + 1 + used - pos,
            ),
        }
    } else {
        Ok((left, 0))
    }
}

/// The product that starts at or after `pos`.
pub open spec fn product(s: Seq<u8>, pos: int) -> Piece
    decreases unread(s, pos), 2nat,
{
    match operand(s, pos) {
        Err(e) => Err(e),
        Ok((first, used)) => widened(product_rest(s, pos + used, first), used as int),
    }
}

/// What follows the products of a sum that were read so far, `left` being their tree.
pub open spec fn sum_rest(s: Seq<u8>, pos: int, left: ExprModel) -> Piece
    decreases unread(s, pos), 3nat,
{
    let at = skip_blanks(s, pos);
    if 0 <= pos <= at < s.len() && additive(s[at]) is Some {
        match product(s, at + 1) {
            Err(e) => Err(e),
            Ok((right, used)) => widened(
                sum_rest(
                    s,
                    at + 1 + used,
                    ExprModel::Binary(additive(s[at])->0, Box::new(left), Box::new(right)),
                ),
                at + 1 + used - pos,
            ),
        }
    } else {
        Ok((left, 0))
    }
}

/// The sum that starts at or after `pos`.
pub open spec fn sum(s: Seq<u8>, pos: int) -> Piece
    decreases unread(s, pos), 4nat,
{
    match product(s, pos) {
        Err(e) => Err(e),
        Ok((first, used)) => widened(sum_rest(s, pos + used, first), used as int),
    }
}

/// The tree of the formula whose text is `s`: one sum, with nothing but blanks behind it.
pub open spec fn parsed(s: Seq<u8>) -> Result<ExprModel, EvalError> {
    match sum(s, 0) {
        Err(e) => Err(e),
        Ok((tree, used)) => {
            let end = skip_blanks(s, used as int);
            if end == s.len() {
                Ok(tree)
            } else {
                Err(EvalError::ParseError(end as usize, Fault::ExpectedOperator))
            }
        },
    }
}

/// Whether every literal of `tree` is a number in decimal notation without a sign.
pub open spec fn well_formed(tree: ExprModel) -> bool
    decreases tree,
{
    match tree {
        ExprModel::Literal(digits) => is_literal(digits),
        ExprModel::Reference(_, _) => true,
        ExprModel::Binary(_, left, right) => well_formed(*left) && well_formed(*right),
    }
}

/// Whether `piece` is a sound reading of `s` from `pos`: its tree, if it has one, is well
/// formed, and, where `pos` lies in a text whose positions are machine numbers, what was
/// read lies in the text and so does the position of a fault.
pub open spec fn is_sound(piece: Piece, s: Seq<u8>, pos: int) -> bool {
    match piece {
        Ok((tree, used)) => well_formed(tree) && (0 <= pos <= s.len() ==> pos + used <= s.len()),
        Err(EvalError::ParseError(at, _)) => 0 <= pos <= s.len() <= usize::MAX ==> pos <= at
            <= s.len(),
        Err(_) => true,
    }
}

/// The reading of an operand is sound.
pub proof fn lemma_operand_is_sound(s: Seq<u8>, pos: int)
    ensures
        is_sound(operand(s, pos), s, pos),
    decreases unread(s, pos), 0nat,
{
    let start = skip_blanks(s, pos);
    if 0 <= pos <= s.len() {
        lemma_skip_blanks(s, pos);
    }
    if 0 <= pos <= start < s.len() {
        if is_digit(s[start]) {
            lemma_run_end(s, start, Numeral::Decimal);
            let whole_end = run_end(s, start, Numeral::Decimal);
            if whole_end < s.len() {
                lemma_run_end(s, whole_end + 1, Numeral::Decimal);
            }
            if literal_end(s, start) is Ok {
                lemma_literal_at(s, start);
            }
        } else if is_letter(s[start]) {
            lemma_run_end(s, start, Numeral::Column);
            lemma_run_end(s, run_end(s, start, Numeral::Column), Numeral::Decimal);
        } else if s[start] == 0x28 {
            lemma_sum_is_sound(s, start + 1);
            if let Ok((_, used)) = sum(s, start + 1) {
                lemma_skip_blanks(s, start + 1 + used);
            }
        }
    }
}

/// The reading of a product is sound, if that of the operands read so far is.
pub proof fn lemma_product_rest_is_sound(s: Seq<u8>, pos: int, left: ExprModel)
    requires
        well_formed(left),
    ensures
        is_sound(product_rest(s, pos, left), s, pos),
    decreases unread(s, pos), 1nat,
{
    let at = skip_blanks(s, pos);
    if 0 <= pos <= at < s.len() && multiplicative(s[at]) is Some {
        lemma_operand_is_sound(s, at + 1);
        if let Ok((right, used)) = operand(s, at + 1) {
            lemma_product_rest_is_sound(
                s,
                at + 1 + used,
                ExprModel::Binary(multiplicative(s[at])->0, Box::new(left), Box::new(right)),
            );
        }
    }
}

/// The reading of a product is sound.
pub proof fn lemma_product_is_sound(s: Seq<u8>, pos: int)
    ensures
        is_sound(product(s, pos), s, pos),
    decreases unread(s, pos), 2nat,
{
    lemma_operand_is_sound(s, pos);
    if let Ok((first, used)) = operand(s, pos) {
        lemma_product_rest_is_sound(s, pos + used, first);
    }
}

/// The reading of a sum is sound, if that of the products read so far is.
pub proof fn lemma_sum_rest_is_sound(s: Seq<u8>, pos: int, left: ExprModel)
    requires
        well_formed(left),
    ensures
        is_sound(sum_rest(s, pos, left), s, pos),
    decreases unread(s, pos), 3nat,
{
    let at = skip_blanks(s, pos);
    if 0 <= pos <= at < s.len() && additive(s[at]) is Some {
        lemma_product_is_sound(s, at + 1);
        if let Ok((right, used)) = product(s, at + 1) {
            lemma_sum_rest_is_sound(
                s,
                at + 1 + used,
                ExprModel::Binary(additive(s[at])->0, Box::new(left), Box::new(right)),
            );
        }
    }
}

/// The reading of a sum is sound.
pub proof fn lemma_sum_is_sound(s: Seq<u8>, pos: int)
    ensures
        is_sound(sum(s, pos), s, pos),
    decreases unread(s, pos), 4nat,
{
    lemma_product_is_sound(s, pos);
    if let Ok((first, used)) = product(s, pos) {
        lemma_sum_rest_is_sound(s, pos + used, first);
    }
}

/// The tree of a formula is well formed: each of its literals is a number in decimal
/// notation without a sign.
pub proof fn law_parsed_is_well_formed(s: Seq<u8>)
    ensures
        parsed(s) matches Ok(tree) ==> well_formed(tree),
{
    lemma_sum_is_sound(s, 0);
}

/// The position of a fault lies in the formula's text, or at its end.
pub proof fn law_fault_is_inside(s: Seq<u8>)
    requires
        s.len() <= usize::MAX,
    ensures
        parsed(s) matches Err(EvalError::ParseError(at, _)) ==> at <= s.len(),
{
    lemma_sum_is_sound(s, 0);
    if let Ok((_, used)) = sum(s, 0) {
        lemma_skip_blanks(s, used as int);
    }
}

/// Whether `read` is what the grammar gives as `piece` for a part that starts at `pos`.
pub open spec fn agrees(read: Result<(Expr, usize), EvalError>, pos: usize, piece: Piece) -> bool {
    match read {
        Ok((tree, end)) => pos <= end && piece == Ok::<(ExprModel, nat), EvalError>(
            (tree@, (end - pos) as nat),
        ),
        Err(e) => piece == Err::<(ExprModel, nat), EvalError>(e),
    }
}

/// Reads the reference that starts at `pos`, where a letter stands. Gives its tree and the
/// position behind it.
fn parse_reference(bytes: &[u8], pos: usize) -> (read: Result<(Expr, usize), EvalError>)
    requires
        pos < bytes.len(),
        is_letter(bytes@[pos as int]),
    ensures
        agrees(read, pos, reference_at(bytes@, pos as int)),
        read matches Ok((_, end)) ==> pos < end <= bytes.len(),
{
    let letters_end = scan_run(bytes, pos, Numeral::Column);
    let digits_end = scan_run(bytes, letters_end, Numeral::Decimal);
    proof {
        lemma_run_end(bytes@, pos as int, Numeral::Column);
        lemma_run_end(bytes@, letters_end as int, Numeral::Decimal);
        lemma_column_is_positive(bytes@.subrange(pos as int, letters_end as int));
    }
    if digits_end == letters_end {
        return Err(EvalError::ParseError(letters_end, Fault::ExpectedRowNumber));
    }
    let row_number: u128 = match read_numeral(bytes, letters_end, digits_end, Numeral::Decimal) {
        Some(n) => n,
        None => {
            return Err(EvalError::ReferenceOutOfDomain);
        },
    };
    if row_number == 0 {
        return Err(EvalError::ParseError(letters_end, Fault::RowZero));
    }
    let column_number: u128 = match read_numeral(bytes, pos, letters_end, Numeral::Column) {
        Some(n) => n,
        None => {
            return Err(EvalError::ReferenceOutOfDomain);
        },
    };
    if row_number - 1 > usize::MAX as u128 || column_number - 1 > usize::MAX as u128 {
        return Err(EvalError::ReferenceOutOfDomain);
    }
    Ok((Expr::Reference((row_number - 1) as usize, (column_number - 1) as usize), digits_end))
}

/// Reads the literal that starts at `pos`, where a digit stands. Gives its tree and the
/// position behind it.
fn parse_literal(bytes: &[u8], pos: usize) -> (read: Result<(Expr, usize), EvalError>)
    requires
        pos < bytes.len(),
        is_digit(bytes@[pos as int]),
    ensures
        agrees(read, pos, literal_at(bytes@, pos as int)),
        read matches Ok((_, end)) ==> pos < end <= bytes.len(),
{
    proof {
        lemma_run_end(bytes@, pos as int, Numeral::Decimal);
        let whole_end = run_end(bytes@, pos as int, Numeral::Decimal);
        if whole_end < bytes.len() {
            lemma_run_end(bytes@, whole_end + 1, Numeral::Decimal);
        }
    }
    match scan_literal(bytes, pos) {
        Ok(end) => Ok((Expr::Literal(copy_range(bytes, pos, end)), end)),
        Err(at) => Err(EvalError::ParseError(at, Fault::ExpectedFraction)),
    }
}

/// Reads the operand that starts at or after `pos`. Gives its tree and the position behind
/// it.
fn parse_operand(bytes: &[u8], pos: usize) -> (read: Result<(Expr, usize), EvalError>)
    requires
        pos <= bytes.len(),
    ensures
        agrees(read, pos, operand(bytes@, pos as int)),
        read matches Ok((_, end)) ==> pos < end <= bytes.len(),
    decreases bytes.len() - pos, 0nat,
{
    let start = scan_blanks(bytes, pos);
    if start >= bytes.len() {
        return Err(EvalError::ParseError(start, Fault::UnexpectedEnd));
    }
    let first: u8 = bytes[start];
    if byte_is_symbol(Numeral::Decimal, first) {
        parse_literal(bytes, start)
    } else if byte_is_symbol(Numeral::Column, first) {
        parse_reference(bytes, start)
    } else if first == 0x28 {
        let (inner, inner_end) = match parse_sum(bytes, start + 1) {
            Ok(found) => found,
            Err(e) => {
                return Err(e);
            },
        };
        let close = scan_blanks(bytes, inner_end);
        if close < bytes.len() && bytes[close] == 0x29 {
            Ok((inner, close + 1))
        } else {
            Err(EvalError::ParseError(close, Fault::ExpectedCloseParen))
        }
    } else {
        Err(EvalError::ParseError(start, Fault::ExpectedOperand))
    }
}

/// Reads the product that starts at or after `pos`. Gives its tree and the position behind
/// its last operand.
fn parse_product(bytes: &[u8], pos: usize) -> (read: Result<(Expr, usize), EvalError>)
    requires
        pos <= bytes.len(),
    ensures
        agrees(read, pos, product(bytes@, pos as int)),
        read matches Ok((_, end)) ==> pos < end <= bytes.len(),
    decreases bytes.len() - pos, 2nat,
{
    let (first, first_end) = match parse_operand(bytes, pos) {
        Ok(found) => found,
        Err(e) => {
            return Err(e);
        },
    };
    let mut left: Expr = first;
    let mut end: usize = first_end;
    loop
        invariant
            pos < end <= bytes.len(),
            product(bytes@, pos as int) == widened(
                product_rest(bytes@, end as int, left@),
                end - pos,
            ),
        decreases bytes.len() - end,
    {
        let at = scan_blanks(bytes, end);
        if at >= bytes.len() {
            return Ok((left, end));
        }
        let op = if bytes[at] == 0x2a {
            BinOp::Mul
        } else if bytes[at] == 0x2f {
            BinOp::Div
        } else {
            return Ok((left, end));
        };
        let (right, right_end) = match parse_operand(bytes, at + 1) {
            Ok(found) => found,
            Err(e) => {
                return Err(e);
            },
        };
        left = Expr::Binary(op, Box::new(left), Box::new(right));
        end = right_end;
    }
}

/// Reads the sum that starts at or after `pos`. Gives its tree and the position behind its
/// last operand.
fn parse_sum(bytes: &[u8], pos: usize) -> (read: Result<(Expr, usize), EvalError>)
    requires
        pos <= bytes.len(),
    ensures
        agrees(read, pos, sum(bytes@, pos as int)),
        read matches Ok((_, end)) ==> pos < end <= bytes.len(),
    decreases bytes.len() - pos, 4nat,
{
    let (first, first_end) = match parse_product(bytes, pos) {
        Ok(found) => found,
        Err(e) => {
            return Err(e);
        },
    };
    let mut left: Expr = first;
    let mut end: usize = first_end;
    loop
        invariant
            pos < end <= bytes.len(),
            sum(bytes@, pos as int) == widened(sum_rest(bytes@, end as int, left@), end - pos),
        decreases bytes.len() - end,
    {
        let at = scan_blanks(bytes, end);
        if at >= bytes.len() {
            return Ok((left, end));
        }
        let op = if bytes[at] == 0x2b {
            BinOp::Add
        } else if bytes[at] == 0x2d {
            BinOp::Sub
        } else {
            return Ok((left, end));
        };
        let (right, right_end) = match parse_product(bytes, at + 1) {
            Ok(found) => found,
            Err(e) => {
                return Err(e);
            },
        };
        left = Expr::Binary(op, Box::new(left), Box::new(right));
        end = right_end;
    }
}

/// Reads a whole formula from its bytes. The result is the formula's tree, or the first
/// fault met from the left, with the offset of the byte at which it was met.
pub fn parse_bytes(bytes: &[u8]) -> (tree: Result<Expr, EvalError>)
    ensures
        match tree {
            Ok(tree) => parsed(bytes@) == Ok::<ExprModel, EvalError>(tree@),
            Err(e) => parsed(bytes@) == Err::<ExprModel, EvalError>(e),
        },
        tree matches Ok(tree) ==> well_formed(tree@),
        tree matches Err(EvalError::ParseError(at, _)) ==> at <= bytes.len(),
{
    proof {
        law_parsed_is_well_formed(bytes@);
        law_fault_is_inside(bytes@);
    }
    let (tree, end) = match parse_sum(bytes, 0) {
        Ok(found) => found,
        Err(e) => {
            return Err(e);
        },
    };
    let rest = scan_blanks(bytes, end);
    if rest == bytes.len() {
        Ok(tree)
    } else {
        Err(EvalError::ParseError(rest, Fault::ExpectedOperator))
    }
}

/// Reads a whole formula from its text, taken as the bytes of its UTF-8 encoding.
pub fn parse_formula(text: &str) -> (tree: Result<Expr, EvalError>)
    ensures
        match tree {
            Ok(tree) => parsed(encode_utf8(text@)) == Ok::<ExprModel, EvalError>(tree@),
            Err(e) => parsed(encode_utf8(text@)) == Err::<ExprModel, EvalError>(e),
        },
        tree matches Ok(tree) ==> well_formed(tree@),
        tree matches Err(EvalError::ParseError(at, _)) ==> at <= encode_utf8(text@).len(),
{
    parse_bytes(text.as_bytes())
}

} // verus!
