//! The values a cell can hold.

use vstd::prelude::*;
use vstd::string::StringSliceAdditionalSpecFns;
use vstd::utf8::{
    char_is_scalar, char_u32_cast, encode_scalar, encode_utf8, is_char_boundary, valid_utf8,
};

verus! {

/// What a cell holds. Exactly one variant is active; nothing is coerced when a value is
/// stored.
#[derive(Debug, Clone, PartialEq)]
pub enum CellValue {
    /// Free text.
    Text(String),
    /// A double-precision number, held as its IEEE-754 bit pattern.
    Number(u64),
    /// The source text of a formula, without a leading `=`.
    Formula(String),
    /// Nothing.
    Empty,
}

/// The mathematical form of a [`CellValue`]: texts are sequences of characters.
pub enum CellModel {
    Text(Seq<char>),
    Number(u64),
    Formula(Seq<char>),
    Empty,
}

impl View for CellValue {
    type V = CellModel;

    open spec fn view(&self) -> CellModel {
        match self {
            CellValue::Text(text) => CellModel::Text(text@),
            CellValue::Number(bits) => CellModel::Number(*bits),
            CellValue::Formula(source) => CellModel::Formula(source@),
            CellValue::Empty => CellModel::Empty,
        }
    }
}

/// A stored value together with the coordinate it is stored at.
#[derive(Debug, Clone, PartialEq)]
pub struct Cell {
    pub value: CellValue,
    pub row: usize,
    pub col: usize,
}

/// The value that typing `input` into a cell gives: behind a leading `=` a formula, whose
/// source is the rest; otherwise the text as it stands.
pub open spec fn entered(input: Seq<char>) -> CellModel {
    if input.len() > 0 && input[0] == '=' {
        CellModel::Formula(input.skip(1))
    } else {
        CellModel::Text(input)
    }
}

/// The encoding of a text starts with the byte `=` exactly when the text starts with the
/// character `=`, and the rest of the encoding is then the encoding of the rest.
pub proof fn lemma_leading_equals(text: Seq<char>)
    ensures
        encode_utf8(text).len() > 0 <==> text.len() > 0,
        text.len() > 0 ==> (encode_utf8(text)[0] == 0x3d <==> text[0] == '='),
        text.len() > 0 && text[0] == '=' ==> encode_utf8(text) == seq![0x3du8] + encode_utf8(
            text.skip(1),
        ),
{
    reveal_with_fuel(encode_utf8, 2);
    if text.len() > 0 {
        let scalar = text[0] as u32;
        char_is_scalar(text[0]);
        char_u32_cast(text[0], scalar);
        char_u32_cast('=', 0x3d);
        assert(encode_scalar(scalar)[0] == 0x3d <==> scalar == 0x3d) by {
            lemma_first_byte(scalar);
        }
        if text[0] == '=' {
            assert(encode_scalar(scalar) =~= seq![0x3du8]) by {
                lemma_first_byte(scalar);
            }
        }
    }
}

/// The first byte of a scalar's encoding is `=` only for the scalar `=`, which has no
/// second byte.
proof fn lemma_first_byte(scalar: u32)
    requires
        vstd::utf8::is_scalar(scalar),
    ensures
        encode_scalar(scalar)[0] == 0x3d <==> scalar == 0x3d,
        scalar == 0x3d ==> encode_scalar(scalar).len() == 1,
{
    assert(scalar <= 0x7f ==> (scalar & 0x7f) as u8 == scalar) by (bit_vector);
    assert(0xC0u8 | (((scalar >> 6) & 0x1F) as u8) >= 0xc0) by (bit_vector);
    assert(0xE0u8 | (((scalar >> 12) & 0x0F) as u8) >= 0xc0) by (bit_vector);
    assert(0xF0u8 | (((scalar >> 18) & 0x7) as u8) >= 0xc0) by (bit_vector);
}

impl CellValue {
    /// The value that typing `input` into a cell gives.
    pub fn from_input(input: &str) -> (value: CellValue)
        ensures
            value@ == entered(input@),
    {
        let bytes = input.as_bytes();
        proof {
            lemma_leading_equals(input@);
            vstd::utf8::encode_utf8_valid_utf8(input@);
        }
        if bytes.len() > 0 && bytes[0] == 0x3d {
            proof {
                reveal_with_fuel(is_char_boundary, 2);
                reveal_with_fuel(valid_utf8, 2);
            }
            let (_, rest) = input.split_at(1);
            proof {
                assert(rest.spec_bytes() =~= encode_utf8(input@.skip(1)));
                vstd::utf8::encode_utf8_decode_utf8(rest@);
                vstd::utf8::encode_utf8_decode_utf8(input@.skip(1));
            }
            CellValue::Formula(rest.to_owned())
        } else {
            CellValue::Text(input.to_owned())
        }
    }
}

} // verus!
