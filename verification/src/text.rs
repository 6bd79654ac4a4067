//! Bytes of cell text: runs of digits and letters, the numbers they denote, and decimal
//! literals.

use vstd::prelude::*;

verus! {

/// The two kinds of numeral that occur in cell text.
#[derive(Debug, Clone, Copy, PartialEq, Eq, Structural)]
pub enum Numeral {
    /// ASCII digits, read in base 10.
    Decimal,
    /// ASCII letters of either case, read as a column name: `A` is 1, `Z` is 26, `AA` is 27.
    Column,
}

/// Whether `b` is an ASCII digit.
pub open spec fn is_digit(b: u8) -> bool {
    0x30 <= b <= 0x39
}

/// Whether `b` is an ASCII letter of either case.
pub open spec fn is_letter(b: u8) -> bool {
    (0x41 <= b <= 0x5a) || (0x61 <= b <= 0x7a)
}

/// A space or a tab.
pub open spec fn is_blank(b: u8) -> bool {
    b == 0x20 || b == 0x09
}

/// Whether `b` is a symbol of the numeral `kind`.
pub open spec fn is_symbol(kind: Numeral, b: u8) -> bool {
    match kind {
        Numeral::Decimal => is_digit(b),
        Numeral::Column => is_letter(b),
    }
}

/// What one symbol counts for: a digit its value, a letter its rank in the alphabet from 1.
pub open spec fn symbol_weight(kind: Numeral, b: u8) -> nat {
    match kind {
        Numeral::Decimal => (b - 0x30) as nat,
        Numeral::Column => if b >= 0x61 {
            (b - 0x60) as nat
        } else {
            (b - 0x40) as nat
        },
    }
}

/// The base in which the numeral `kind` is read.
pub open spec fn radix(kind: Numeral) -> nat {
    match kind {
        Numeral::Decimal => 10,
        Numeral::Column => 26,
    }
}

/// The number that a run of symbols denotes, most significant symbol first.
pub open spec fn numeral_value(kind: Numeral, symbols: Seq<u8>) -> nat
    decreases symbols.len(),
{
    if symbols.len() == 0 {
        0
    } else {
        numeral_value(kind, symbols.drop_last()) * radix(kind) + symbol_weight(
            kind,
            symbols.last(),
        )
    }
}

/// The digits of `n` in base 10, without leading zeros.
pub open spec fn decimal_digits(n: nat) -> Seq<u8>
    decreases n,
{
    if n < 10 {
        seq![(0x30 + n) as u8]
    } else {
        decimal_digits(n / 10).push((0x30 + n % 10) as u8)
    }
}

/// The name of the column whose number, counted from 1, is `n`, in upper case.
pub open spec fn column_letters(n: nat) -> Seq<u8>
    recommends
        n >= 1,
    decreases n,
{
    if n <= 26 {
        seq![(0x40 + n) as u8]
    } else {
        column_letters(((n - 1) / 26) as nat).push((0x41 + (n - 1) % 26) as u8)
    }
}

/// Where the longest run of symbols of `kind` that starts at `pos` ends.
pub open spec fn run_end(s: Seq<u8>, pos: int, kind: Numeral) -> int
    decreases s.len() - pos,
{
    if 0 <= pos < s.len() && is_symbol(kind, s[pos]) {
        run_end(s, pos + 1, kind)
    } else {
        pos
    }
}

/// The first position at or after `pos` that holds no blank.
pub open spec fn skip_blanks(s: Seq<u8>, pos: int) -> int
    decreases s.len() - pos,
{
    if 0 <= pos < s.len() && is_blank(s[pos]) {
        skip_blanks(s, pos + 1)
    } else {
        pos
    }
}

/// Where the decimal literal that starts at `pos` ends: digits, then optionally a point and
/// more digits. `Err` gives the position after a point that no digit follows.
pub open spec fn literal_end(s: Seq<u8>, pos: int) -> Result<int, int> {
    let whole_end = run_end(s, pos, Numeral::Decimal);
    if whole_end < s.len() && s[whole_end] == 0x2e {
        let fraction_end = run_end(s, whole_end + 1, Numeral::Decimal);
        if fraction_end == whole_end + 1 {
            Err(fraction_end)
        } else {
            Ok(fraction_end)
        }
    } else {
        Ok(whole_end)
    }
}

/// Whether the whole of `s` is a number in decimal notation: an optional `-`, one or more
/// digits, and optionally a point followed by one or more digits.
pub open spec fn is_decimal(s: Seq<u8>) -> bool {
    let start: int = if s.len() > 0 && s[0] == 0x2d {
        1
    } else {
        0
    };
    &&& start < s.len()
    &&& is_digit(s[start])
    &&& literal_end(s, start) == Ok::<int, int>(s.len() as int)
}

/// Whether the whole of `s` is a number in decimal notation without a sign.
pub open spec fn is_literal(s: Seq<u8>) -> bool {
    is_decimal(s) && is_digit(s[0])
}

/// A run ends inside the text, holds symbols only, and cannot be extended.
pub proof fn lemma_run_end(s: Seq<u8>, pos: int, kind: Numeral)
    requires
        0 <= pos <= s.len(),
    ensures
        pos <= run_end(s, pos, kind) <= s.len(),
        forall|i: int| pos <= i < run_end(s, pos, kind) ==> is_symbol(kind, #[trigger] s[i]),
        run_end(s, pos, kind) < s.len() ==> !is_symbol(kind, s[run_end(s, pos, kind)]),
        pos < s.len() && is_symbol(kind, s[pos]) ==> pos < run_end(s, pos, kind),
    decreases s.len() - pos,
{
    if pos < s.len() && is_symbol(kind, s[pos]) {
        lemma_run_end(s, pos + 1, kind);
    }
}

/// Skipping blanks ends inside the text.
pub proof fn lemma_skip_blanks(s: Seq<u8>, pos: int)
    requires
        0 <= pos <= s.len(),
    ensures
        pos <= skip_blanks(s, pos) <= s.len(),
    decreases s.len() - pos,
{
    if pos < s.len() && is_blank(s[pos]) {
        lemma_skip_blanks(s, pos + 1);
    }
}

/// A run ends at `end` if it holds symbols only up to there and no symbol stands at `end`.
pub proof fn lemma_run_ends_at(s: Seq<u8>, pos: int, kind: Numeral, end: int)
    requires
        0 <= pos <= end <= s.len(),
        forall|i: int| pos <= i < end ==> is_symbol(kind, #[trigger] s[i]),
        end == s.len() || !is_symbol(kind, s[end]),
    ensures
        run_end(s, pos, kind) == end,
    decreases end - pos,
{
    if pos < end {
        lemma_run_ends_at(s, pos + 1, kind, end);
    }
}

/// The bytes of a literal inside a text are, taken alone, a number in decimal notation.
pub proof fn lemma_literal_at(s: Seq<u8>, pos: int)
    requires
        0 <= pos < s.len(),
        is_digit(s[pos]),
        literal_end(s, pos) is Ok,
    ensures
        pos < literal_end(s, pos)->Ok_0 <= s.len(),
        is_literal(s.subrange(pos, literal_end(s, pos)->Ok_0)),
{
    let end = literal_end(s, pos)->Ok_0;
    let whole_end = run_end(s, pos, Numeral::Decimal);
    lemma_run_end(s, pos, Numeral::Decimal);
    if whole_end < s.len() && s[whole_end] == 0x2e {
        lemma_run_end(s, whole_end + 1, Numeral::Decimal);
        let literal = s.subrange(pos, end);
        assert forall|i: int| 0 <= i < whole_end - pos implies is_symbol(
            Numeral::Decimal,
            #[trigger] literal[i],
        ) by {
            assert(literal[i] == s[pos + i]);
        }
        lemma_run_ends_at(literal, 0, Numeral::Decimal, whole_end - pos);
        assert forall|i: int| whole_end - pos + 1 <= i < literal.len() implies is_symbol(
            Numeral::Decimal,
            #[trigger] literal[i],
        ) by {
            assert(literal[i] == s[pos + i]);
        }
        lemma_run_ends_at(literal, whole_end - pos + 1, Numeral::Decimal, literal.len() as int);
    } else {
        let literal = s.subrange(pos, end);
        assert forall|i: int| 0 <= i < literal.len() implies is_symbol(
            Numeral::Decimal,
            #[trigger] literal[i],
        ) by {
            assert(literal[i] == s[pos + i]);
        }
        lemma_run_ends_at(literal, 0, Numeral::Decimal, literal.len() as int);
    }
}

/// A column name of at least one letter is worth at least 1.
pub proof fn lemma_column_is_positive(letters: Seq<u8>)
    requires
        letters.len() > 0,
        forall|i: int| 0 <= i < letters.len() ==> is_letter(#[trigger] letters[i]),
    ensures
        numeral_value(Numeral::Column, letters) >= 1,
{
    assert(is_letter(letters.last()));
}

/// A numeral is worth at least as much as each of its prefixes.
pub proof fn lemma_value_of_prefix(kind: Numeral, symbols: Seq<u8>, n: int)
    requires
        0 <= n <= symbols.len(),
    ensures
        numeral_value(kind, symbols.subrange(0, n)) <= numeral_value(kind, symbols),
    decreases symbols.len() - n,
{
    if n == symbols.len() {
        assert(symbols.subrange(0, n) =~= symbols);
    } else {
        lemma_value_of_prefix(kind, symbols.drop_last(), n);
        assert(symbols.drop_last().subrange(0, n) =~= symbols.subrange(0, n));
        match kind {
            Numeral::Decimal => {},
            Numeral::Column => {},
        }
    }
}

/// The digits of a number are digits, at least one, and denote the number.
pub proof fn lemma_decimal_digits(n: nat)
    ensures
        decimal_digits(n).len() > 0,
        forall|i: int|
            0 <= i < decimal_digits(n).len() ==> is_digit(#[trigger] decimal_digits(n)[i]),
        numeral_value(Numeral::Decimal, decimal_digits(n)) == n,
    decreases n,
{
    reveal_with_fuel(numeral_value, 2);
    if n >= 10 {
        lemma_decimal_digits(n / 10);
        assert(decimal_digits(n).drop_last() =~= decimal_digits(n / 10));
    }
}

/// The name of a column is made of letters, at least one, and denotes the column's number.
pub proof fn lemma_column_letters(n: nat)
    requires
        n >= 1,
    ensures
        column_letters(n).len() > 0,
        forall|i: int|
            0 <= i < column_letters(n).len() ==> is_letter(#[trigger] column_letters(n)[i]),
        numeral_value(Numeral::Column, column_letters(n)) == n,
    decreases n,
{
    reveal_with_fuel(numeral_value, 2);
    if n > 26 {
        let rest = ((n - 1) / 26) as nat;
        lemma_column_letters(rest);
        assert(column_letters(n).drop_last() =~= column_letters(rest));
    }
}

/// Decides whether `b` is a symbol of the numeral `kind`.
pub(crate) fn byte_is_symbol(kind: Numeral, b: u8) -> (r: bool)
    ensures
        r == is_symbol(kind, b),
{
    match kind {
        Numeral::Decimal => 0x30 <= b && b <= 0x39,
        Numeral::Column => (0x41 <= b && b <= 0x5a) || (0x61 <= b && b <= 0x7a),
    }
}

/// Decides whether `b` is a space or a tab.
pub(crate) fn byte_is_blank(b: u8) -> (r: bool)
    ensures
        r == is_blank(b),
{
    b == 0x20 || b == 0x09
}

/// Finds the end of the run of symbols of `kind` that starts at `pos`.
pub(crate) fn scan_run(bytes: &[u8], pos: usize, kind: Numeral) -> (end: usize)
    requires
        pos <= bytes.len(),
    ensures
        end == run_end(bytes@, pos as int, kind),
        pos <= end <= bytes.len(),
{
    let mut i: usize = pos;
    while i < bytes.len() && byte_is_symbol(kind, bytes[i])
        invariant
            pos <= i <= bytes.len(),
            run_end(bytes@, i as int, kind) == run_end(bytes@, pos as int, kind),
        decreases bytes.len() - i,
    {
        i += 1;
    }
    i
}

/// Finds the first position at or after `pos` that holds no blank.
pub(crate) fn scan_blanks(bytes: &[u8], pos: usize) -> (end: usize)
    requires
        pos <= bytes.len(),
    ensures
        end == skip_blanks(bytes@, pos as int),
        pos <= end <= bytes.len(),
{
    let mut i: usize = pos;
    while i < bytes.len() && byte_is_blank(bytes[i])
        invariant
            pos <= i <= bytes.len(),
            skip_blanks(bytes@, i as int) == skip_blanks(bytes@, pos as int),
        decreases bytes.len() - i,
    {
        i += 1;
    }
    i
}

/// Finds the end of the decimal literal that starts at `pos`.
pub(crate) fn scan_literal(bytes: &[u8], pos: usize) -> (end: Result<usize, usize>)
    requires
        pos <= bytes.len(),
    ensures
        match end {
            Ok(e) => literal_end(bytes@, pos as int) == Ok::<int, int>(e as int) && pos <= e
                <= bytes.len(),
            Err(e) => literal_end(bytes@, pos as int) == Err::<int, int>(e as int) && pos < e
                <= bytes.len(),
        },
{
    let whole_end = scan_run(bytes, pos, Numeral::Decimal);
    if whole_end < bytes.len() && bytes[whole_end] == 0x2e {
        let fraction_end = scan_run(bytes, whole_end + 1, Numeral::Decimal);
        if fraction_end == whole_end + 1 {
            Err(fraction_end)
        } else {
            Ok(fraction_end)
        }
    } else {
        Ok(whole_end)
    }
}

/// Decides whether the whole of `bytes` is a number in decimal notation.
pub fn check_decimal(bytes: &[u8]) -> (r: bool)
    ensures
        r == is_decimal(bytes@),
{
    let start: usize = if bytes.len() > 0 && bytes[0] == 0x2d {
        1
    } else {
        0
    };
    if start < bytes.len() && byte_is_symbol(Numeral::Decimal, bytes[start]) {
        match scan_literal(bytes, start) {
            Ok(end) => end == bytes.len(),
            Err(_) => false,
        }
    } else {
        false
    }
}

/// The number that the symbols in `bytes[from..to]` denote, or `None` when it is larger
/// than `u128::MAX`.
pub(crate) fn read_numeral(bytes: &[u8], from: usize, to: usize, kind: Numeral) -> (value: Option<
    u128,
>)
    requires
        from <= to <= bytes.len(),
        forall|i: int| from <= i < to ==> is_symbol(kind, #[trigger] bytes@[i]),
    ensures
        match value {
            Some(v) => v == numeral_value(kind, bytes@.subrange(from as int, to as int)),
            None => numeral_value(kind, bytes@.subrange(from as int, to as int)) > u128::MAX,
        },
{
    let ghost whole = bytes@.subrange(from as int, to as int);
    let base: u128 = match kind {
        Numeral::Decimal => 10,
        Numeral::Column => 26,
    };
    let mut acc: u128 = 0;
    let mut i: usize = from;
    while i < to
        invariant
            from <= i <= to <= bytes.len(),
            whole == bytes@.subrange(from as int, to as int),
            forall|j: int| from <= j < to ==> is_symbol(kind, #[trigger] bytes@[j]),
            base == radix(kind),
            acc == numeral_value(kind, bytes@.subrange(from as int, i as int)),
        decreases to - i,
    {
        let b: u8 = bytes[i];
        let weight: u128 = match kind {
            Numeral::Decimal => (b - 0x30) as u128,
            Numeral::Column => if b >= 0x61 {
                (b - 0x60) as u128
            } else {
                (b - 0x40) as u128
            },
        };
        let ghost longer = bytes@.subrange(from as int, i + 1);
        proof {
            assert(longer.drop_last() =~= bytes@.subrange(from as int, i as int));
            assert(longer =~= whole.subrange(0, i + 1 - from));
            lemma_value_of_prefix(kind, whole, i + 1 - from);
        }
        let scaled: u128 = match acc.checked_mul(base) {
            Some(v) => v,
            None => {
                return None;
            },
        };
        acc = match scaled.checked_add(weight) {
            Some(v) => v,
            None => {
                return None;
            },
        };
        i += 1;
    }
    Some(acc)
}

/// Copies `bytes[from..to]`.
pub(crate) fn copy_range(bytes: &[u8], from: usize, to: usize) -> (copy: Vec<u8>)
    requires
        from <= to <= bytes.len(),
    ensures
        copy@ == bytes@.subrange(from as int, to as int),
{
    let mut copy: Vec<u8> = Vec::new();
    let mut i: usize = from;
    while i < to
        invariant
            from <= i <= to <= bytes.len(),
            copy@ == bytes@.subrange(from as int, i as int),
        decreases to - i,
    {
        copy.push(bytes[i]);
        i += 1;
    }
    copy
}

} // verus!
