//! The notation of a formula's tree: a text that reads as that tree.
//!
//! The notation puts parentheses only where the tree needs them: around a sum that is an
//! operand of a product, and around the right operand of an operator of its own level.

use crate::error::EvalError;
use crate::formula::{
    additive, multiplicative, operand, parsed, product, product_rest, reference_at, sum,
    sum_rest, well_formed, widened, BinOp, ExprModel,
};
use crate::text::{
    column_letters, decimal_digits, is_blank, is_digit, is_literal, is_symbol,
    lemma_column_letters, lemma_decimal_digits, lemma_run_end, lemma_run_ends_at, literal_end,
    run_end, skip_blanks, Numeral,
};
use vstd::prelude::*;

verus! {

/// The byte that denotes `op`.
pub open spec fn operator_byte(op: BinOp) -> u8 {
    match op {
        BinOp::Add => 0x2b,
        BinOp::Sub => 0x2d,
        BinOp::Mul => 0x2a,
        BinOp::Div => 0x2f,
    }
}

/// How tightly `op` binds: 0 for the operators of a sum, 1 for those of a product.
pub open spec fn precedence(op: BinOp) -> nat {
    match op {
        BinOp::Add | BinOp::Sub => 0,
        BinOp::Mul | BinOp::Div => 1,
    }
}

/// The notation of the reference to `(row, col)`: the column's letters, then the row's
/// number counted from 1.
pub open spec fn reference_notation(row: usize, col: usize) -> Seq<u8> {
    column_letters((col + 1) as nat) + decimal_digits((row + 1) as nat)
}

/// The notation of `tree` where an operand of level `level` is expected: 0 for a sum, 1 for
/// a product, 2 for an operand of a product.
pub open spec fn notation(tree: ExprModel, level: nat) -> Seq<u8>
    decreases tree,
{
    match tree {
        ExprModel::Literal(digits) => digits,
        ExprModel::Reference(row, col) => reference_notation(row, col),
        ExprModel::Binary(op, left, right) => {
            let body = notation(*left, precedence(op)) + seq![operator_byte(op)] + notation(
                *right,
                precedence(op) + 1,
            );
            if precedence(op) < level {
                seq![0x28u8] + body + seq![0x29u8]
            } else {
                body
            }
        },
    }
}

/// Whether `text` stands in `s` at `pos`.
pub open spec fn stands_at(s: Seq<u8>, pos: int, text: Seq<u8>) -> bool {
    &&& 0 <= pos
    &&& pos + text.len() <= s.len()
    &&& forall|i: int| 0 <= i < text.len() ==> s[pos + i] == #[trigger] text[i]
}

/// Whether what stands in `s` at `at` ends a part of level `level`: the end of the text, a
/// closing parenthesis, an operator of a sum, or, behind a part of a product, an operator
/// of a product.
pub open spec fn closes(s: Seq<u8>, at: int, level: nat) -> bool {
    ||| at == s.len()
    ||| 0 <= at < s.len() && (s[at] == 0x29 || additive(s[at]) is Some || (level >= 1
        && multiplicative(s[at]) is Some))
}

/// What reading the notation of `tree` at `pos` gives, by the level that it was written for.
pub open spec fn reads_back(tree: ExprModel, level: nat, s: Seq<u8>, pos: int) -> bool {
    let len = notation(tree, level).len() as int;
    &&& level >= 2 ==> operand(s, pos) == Ok::<(ExprModel, nat), EvalError>((tree, len as nat))
    &&& level >= 1 ==> product(s, pos) == widened(product_rest(s, pos + len, tree), len)
    &&& level == 0 ==> sum(s, pos) == widened(sum_rest(s, pos + len, tree), len)
}

/// A notation is never empty.
pub proof fn lemma_notation_is_not_empty(tree: ExprModel, level: nat)
    requires
        well_formed(tree),
    ensures
        notation(tree, level).len() > 0,
    decreases tree,
{
    match tree {
        ExprModel::Literal(_) => {},
        ExprModel::Reference(row, col) => {
            lemma_decimal_digits((row + 1) as nat);
        },
        ExprModel::Binary(_, _, _) => {},
    }
}

/// No blank is skipped where none stands.
pub proof fn lemma_nothing_to_skip(s: Seq<u8>, pos: int)
    requires
        0 <= pos <= s.len(),
        pos < s.len() ==> !is_blank(s[pos]),
    ensures
        skip_blanks(s, pos) == pos,
{
}

/// The rest of a product is empty where no operator of a product follows.
pub proof fn lemma_product_ends(s: Seq<u8>, at: int, tree: ExprModel)
    requires
        closes(s, at, 0),
    ensures
        product_rest(s, at, tree) == Ok::<(ExprModel, nat), EvalError>((tree, 0)),
{
    lemma_nothing_to_skip(s, at);
}

/// The rest of a sum is empty at the end of the text and before a closing parenthesis.
pub proof fn lemma_sum_ends(s: Seq<u8>, at: int, tree: ExprModel)
    requires
        at == s.len() || (0 <= at < s.len() && s[at] == 0x29),
    ensures
        sum_rest(s, at, tree) == Ok::<(ExprModel, nat), EvalError>((tree, 0)),
{
    lemma_nothing_to_skip(s, at);
}

/// A literal that stands before something that ends it reads as itself.
pub proof fn lemma_reads_literal(digits: Seq<u8>, s: Seq<u8>, pos: int)
    requires
        is_literal(digits),
        stands_at(s, pos, digits),
        closes(s, pos + digits.len(), 2),
    ensures
        operand(s, pos) == Ok::<(ExprModel, nat), EvalError>(
            (ExprModel::Literal(digits), digits.len()),
        ),
{
    let len = digits.len() as int;
    lemma_nothing_to_skip(s, pos);
    let whole = run_end(digits, 0, Numeral::Decimal);
    lemma_run_end(digits, 0, Numeral::Decimal);
    assert forall|i: int| pos <= i < pos + whole implies is_symbol(
        Numeral::Decimal,
        #[trigger] s[i],
    ) by {
        assert(s[pos + (i - pos)] == digits[i - pos]);
    }
    if whole < len {
        lemma_run_ends_at(s, pos, Numeral::Decimal, pos + whole);
        lemma_run_end(digits, whole + 1, Numeral::Decimal);
        assert forall|i: int| pos + whole + 1 <= i < pos + len implies is_symbol(
            Numeral::Decimal,
            #[trigger] s[i],
        ) by {
            assert(s[pos + (i - pos)] == digits[i - pos]);
        }
        lemma_run_ends_at(s, pos + whole + 1, Numeral::Decimal, pos + len);
    } else {
        lemma_run_ends_at(s, pos, Numeral::Decimal, pos + len);
    }
    assert(s.subrange(pos, pos + len) =~= digits);
}

/// A reference that stands before something that ends it reads as itself.
pub proof fn lemma_reads_reference(row: usize, col: usize, s: Seq<u8>, pos: int)
    requires
        stands_at(s, pos, reference_notation(row, col)),
        closes(s, pos + reference_notation(row, col).len(), 2),
    ensures
        operand(s, pos) == Ok::<(ExprModel, nat), EvalError>(
            (ExprModel::Reference(row, col), reference_notation(row, col).len()),
        ),
{
    let letters = column_letters((col + 1) as nat);
    let digits = decimal_digits((row + 1) as nat);
    let text = reference_notation(row, col);
    lemma_column_letters((col + 1) as nat);
    lemma_decimal_digits((row + 1) as nat);
    let middle = pos + letters.len();
    let end = pos + text.len();
    assert(text[0] == letters[0]);
    lemma_nothing_to_skip(s, pos);
    assert forall|i: int| pos <= i < middle implies is_symbol(
        Numeral::Column,
        #[trigger] s[i],
    ) by {
        assert(text[i - pos] == letters[i - pos]);
    }
    assert forall|i: int| middle <= i < end implies is_symbol(
        Numeral::Decimal,
        #[trigger] s[i],
    ) by {
        assert(text[i - pos] == digits[i - middle]);
    }
    lemma_run_ends_at(s, pos, Numeral::Column, middle);
    lemma_run_ends_at(s, middle, Numeral::Decimal, end);
    assert(s.subrange(pos, middle) =~= letters) by {
        assert forall|i: int| 0 <= i < letters.len() implies s.subrange(pos, middle)[i]
            == letters[i] by {
            assert(s[pos + i] == text[i]);
        }
    }
    assert(s.subrange(middle, end) =~= digits) by {
        assert forall|i: int| 0 <= i < digits.len() implies s.subrange(middle, end)[i]
            == digits[i] by {
            assert(s[pos + (letters.len() + i)] == text[letters.len() + i]);
        }
    }
    assert(reference_at(s, pos) == Ok::<(ExprModel, nat), EvalError>(
        (ExprModel::Reference(row, col), text.len()),
    ));
}

/// Where the parts of the notation of an operator with its operands stand: the position of
/// the left operand, of the operator, and behind the right operand.
pub open spec fn layout(
    op: BinOp,
    left: ExprModel,
    right: ExprModel,
    level: nat,
    pos: int,
) -> (int, int, int) {
    let start = if precedence(op) < level {
        pos + 1
    } else {
        pos
    };
    let sign = start + notation(left, precedence(op)).len();
    (start, sign, sign + 1 + notation(right, precedence(op) + 1).len())
}

/// Where the notation of an operator with its operands stands, its parts stand as laid
/// out, within parentheses where the notation has them.
pub proof fn lemma_parts_stand(
    op: BinOp,
    left: ExprModel,
    right: ExprModel,
    level: nat,
    s: Seq<u8>,
    pos: int,
)
    requires
        stands_at(s, pos, notation(ExprModel::Binary(op, Box::new(left), Box::new(right)), level)),
    ensures
        ({
            let (start, sign, end) = layout(op, left, right, level, pos);
            &&& stands_at(s, start, notation(left, precedence(op)))
            &&& 0 <= sign < s.len() && s[sign] == operator_byte(op)
            &&& stands_at(s, sign + 1, notation(right, precedence(op) + 1))
            &&& precedence(op) < level ==> s[pos] == 0x28 && end < s.len() && s[end] == 0x29 && end
                + 1 == pos + notation(
                ExprModel::Binary(op, Box::new(left), Box::new(right)),
                level,
            ).len()
            &&& precedence(op) >= level ==> end == pos + notation(
                ExprModel::Binary(op, Box::new(left), Box::new(right)),
                level,
            ).len()
        }),
{
    let tree = ExprModel::Binary(op, Box::new(left), Box::new(right));
    let text = notation(tree, level);
    let first = notation(left, precedence(op));
    let second = notation(right, precedence(op) + 1);
    let body = first + seq![operator_byte(op)] + second;
    let (start, sign, end) = layout(op, left, right, level, pos);
    let wrapped = precedence(op) < level;
    assert forall|i: int| 0 <= i < body.len() implies s[start + i] == #[trigger] body[i] by {
        if wrapped {
            assert(s[pos + (i + 1)] == text[i + 1]);
        }
    }
    assert forall|i: int| 0 <= i < first.len() implies s[start + i] == #[trigger] first[i] by {
        assert(s[start + i] == body[i]);
    }
    assert(s[start + first.len()] == body[first.len() as int]);
    assert forall|i: int| 0 <= i < second.len() implies s[sign + 1 + i] == #[trigger] second[i] by {
        assert(s[start + (first.len() + 1 + i)] == body[first.len() + 1 + i]);
    }
    if wrapped {
        assert(s[pos + 0] == text[0]);
        assert(s[pos + (text.len() - 1)] == text[text.len() - 1]);
    }
}

/// A sum that reads back up to an operator of a sum, with a product behind the operator
/// that reads back, reads back as the operator applied to both.
pub proof fn lemma_reads_sum(
    op: BinOp,
    left: ExprModel,
    right: ExprModel,
    s: Seq<u8>,
    start: int,
    sign: int,
    end: int,
)
    requires
        precedence(op) == 0,
        0 <= start <= sign < end <= s.len(),
        s[sign] == operator_byte(op),
        sum(s, start) == widened(sum_rest(s, sign, left), sign - start),
        product(s, sign + 1) == widened(product_rest(s, end, right), end - sign - 1),
        closes(s, end, 0),
    ensures
        sum(s, start) == widened(
            sum_rest(s, end, ExprModel::Binary(op, Box::new(left), Box::new(right))),
            end - start,
        ),
{
    lemma_nothing_to_skip(s, sign);
    lemma_product_ends(s, end, right);
}

/// A product that reads back up to an operator of a product, with an operand behind the
/// operator that reads back, reads back as the operator applied to both.
pub proof fn lemma_reads_product(
    op: BinOp,
    left: ExprModel,
    right: ExprModel,
    s: Seq<u8>,
    start: int,
    sign: int,
    end: int,
)
    requires
        precedence(op) == 1,
        0 <= start <= sign < end <= s.len(),
        s[sign] == operator_byte(op),
        product(s, start) == widened(product_rest(s, sign, left), sign - start),
        operand(s, sign + 1) == Ok::<(ExprModel, nat), EvalError>((right, (end - sign - 1) as nat)),
    ensures
        product(s, start) == widened(
            product_rest(s, end, ExprModel::Binary(op, Box::new(left), Box::new(right))),
            end - start,
        ),
{
    lemma_nothing_to_skip(s, sign);
}

/// A sum in parentheses reads as the sum.
pub proof fn lemma_reads_parentheses(tree: ExprModel, s: Seq<u8>, pos: int, end: int)
    requires
        0 <= pos < end < s.len(),
        s[pos] == 0x28,
        s[end] == 0x29,
        sum(s, pos + 1) == widened(sum_rest(s, end, tree), end - pos - 1),
    ensures
        operand(s, pos) == Ok::<(ExprModel, nat), EvalError>((tree, (end + 1 - pos) as nat)),
{
    lemma_nothing_to_skip(s, pos);
    lemma_nothing_to_skip(s, end);
    lemma_sum_ends(s, end, tree);
}

/// A product that reads back before something that ends a sum is a sum that reads back.
pub proof fn lemma_product_is_sum(tree: ExprModel, s: Seq<u8>, pos: int, end: int)
    requires
        0 <= pos <= end,
        product(s, pos) == widened(product_rest(s, end, tree), end - pos),
        closes(s, end, 0),
    ensures
        sum(s, pos) == widened(sum_rest(s, end, tree), end - pos),
{
    lemma_product_ends(s, end, tree);
}

/// An operand that reads back is a product that reads back.
pub proof fn lemma_operand_is_product(tree: ExprModel, s: Seq<u8>, pos: int, end: int)
    requires
        0 <= pos <= end,
        operand(s, pos) == Ok::<(ExprModel, nat), EvalError>((tree, (end - pos) as nat)),
    ensures
        product(s, pos) == widened(product_rest(s, end, tree), end - pos),
{
}

/// The notation of a tree, standing before something that ends it, reads as the tree.
pub proof fn lemma_reads_notation(tree: ExprModel, level: nat, s: Seq<u8>, pos: int)
    requires
        well_formed(tree),
        level <= 2,
        stands_at(s, pos, notation(tree, level)),
        closes(s, pos + notation(tree, level).len(), level),
    ensures
        reads_back(tree, level, s, pos),
    decreases tree,
{
    let len = notation(tree, level).len() as int;
    match tree {
        ExprModel::Literal(digits) => {
            lemma_reads_literal(digits, s, pos);
            lemma_operand_is_product(tree, s, pos, pos + len);
            if level == 0 {
                lemma_product_is_sum(tree, s, pos, pos + len);
            }
        },
        ExprModel::Reference(row, col) => {
            lemma_reads_reference(row, col, s, pos);
            lemma_operand_is_product(tree, s, pos, pos + len);
            if level == 0 {
                lemma_product_is_sum(tree, s, pos, pos + len);
            }
        },
        ExprModel::Binary(op, left, right) => {
            let inner = precedence(op);
            let (start, sign, end) = layout(op, *left, *right, level, pos);
            lemma_parts_stand(op, *left, *right, level, s, pos);
            lemma_notation_is_not_empty(*left, inner);
            lemma_notation_is_not_empty(*right, inner + 1);
            lemma_reads_notation(*left, inner, s, start);
            lemma_reads_notation(*right, inner + 1, s, sign + 1);
            if inner == 0 {
                lemma_reads_sum(op, *left, *right, s, start, sign, end);
            } else {
                lemma_reads_product(op, *left, *right, s, start, sign, end);
                if inner < level || level == 0 {
                    lemma_product_is_sum(tree, s, start, end);
                }
            }
            if inner < level {
                lemma_reads_parentheses(tree, s, pos, end);
                lemma_operand_is_product(tree, s, pos, end + 1);
            }
        },
    }
}

/// Reading the notation of a well-formed tree gives the tree back: every tree can be
/// written down, and the grammar groups what was written as the tree does.
pub proof fn law_notation_reads_back(tree: ExprModel)
    requires
        well_formed(tree),
    ensures
        parsed(notation(tree, 0)) == Ok::<ExprModel, EvalError>(tree),
{
    let text = notation(tree, 0);
    lemma_reads_notation(tree, 0, text, 0);
    lemma_sum_ends(text, text.len() as int, tree);
    lemma_nothing_to_skip(text, text.len() as int);
}

} // verus!
