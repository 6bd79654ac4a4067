use spreadsheet::cell::CellValue;
use spreadsheet::error::{EvalError, Fault};
use spreadsheet::term::Term;
use spreadsheet::formula::BinOp;
use spreadsheet::sheet::Sheet;

fn number(term: &Term) -> f64 {
    match term {
        Term::Bits(bits) => f64::from_bits(*bits),
        Term::Decimal(digits) => std::str::from_utf8(digits)
            .expect("a decimal is ASCII")
            .parse()
            .expect("a decimal is a number"),
        Term::Binary(op, left, right) => {
            let a = number(left);
            let b = number(right);
            match op {
                BinOp::Add => a + b,
                BinOp::Sub => a - b,
                BinOp::Mul => a * b,
                BinOp::Div => a / b,
            }
        }
    }
}

fn evaluated(sheet: &Sheet, row: usize, col: usize) -> Result<f64, EvalError> {
    sheet.evaluate(row, col).map(|term| number(&term))
}

fn formula(source: &str) -> CellValue {
    CellValue::Formula(source.to_string())
}

fn num(value: f64) -> CellValue {
    CellValue::Number(value.to_bits())
}

#[test]
fn formula_round_trip() {
    let mut sheet = Sheet::new();
    sheet.set_cell(0, 0, num(2.0));
    sheet.set_cell(0, 1, formula("A1*3"));
    assert_eq!(evaluated(&sheet, 0, 1), Ok(6.0));
}

#[test]
fn formula_round_trip_gives_the_term_of_the_formula() {
    let mut sheet = Sheet::new();
    sheet.set_cell(0, 0, num(2.0));
    sheet.set_cell(0, 1, formula("A1*3"));
    assert_eq!(
        sheet.evaluate(0, 1),
        Ok(Term::Binary(
            BinOp::Mul,
            Box::new(Term::Bits(2.0f64.to_bits())),
            Box::new(Term::Decimal(b"3".to_vec()))
        ))
    );
}

#[test]
fn cycle_detection() {
    let mut sheet = Sheet::new();
    sheet.set_cell(0, 0, formula("B1"));
    sheet.set_cell(0, 1, formula("A1"));
    assert_eq!(sheet.evaluate(0, 0), Err(EvalError::CircularReference(0, 0)));
    assert_eq!(sheet.evaluate(0, 1), Err(EvalError::CircularReference(0, 1)));
}

#[test]
fn a_formula_that_names_its_own_cell_is_circular() {
    let mut sheet = Sheet::new();
    sheet.set_cell(2, 3, formula("1+D3"));
    assert_eq!(sheet.evaluate(2, 3), Err(EvalError::CircularReference(2, 3)));
}

#[test]
fn a_cycle_is_reported_from_outside_it_too() {
    let mut sheet = Sheet::new();
    sheet.set_cell(0, 0, formula("B1+1"));
    sheet.set_cell(0, 1, formula("C1*2"));
    sheet.set_cell(0, 2, formula("B1-1"));
    assert_eq!(sheet.evaluate(0, 0), Err(EvalError::CircularReference(0, 1)));
    assert_eq!(sheet.evaluate(0, 1), Err(EvalError::CircularReference(0, 1)));
    assert_eq!(sheet.evaluate(0, 2), Err(EvalError::CircularReference(0, 2)));
}

#[test]
fn a_long_cycle_ends() {
    let mut sheet = Sheet::new();
    for row in 0..200usize {
        sheet.set_cell(row, 0, formula(&format!("A{}", (row + 1) % 200 + 1)));
    }
    assert_eq!(sheet.evaluate(0, 0), Err(EvalError::CircularReference(0, 0)));
    assert_eq!(sheet.evaluate(77, 0), Err(EvalError::CircularReference(77, 0)));
}

#[test]
fn a_cell_used_twice_is_no_cycle() {
    let mut sheet = Sheet::new();
    sheet.set_cell(0, 0, num(3.0));
    sheet.set_cell(0, 1, formula("A1+1"));
    sheet.set_cell(0, 2, formula("A1*2"));
    sheet.set_cell(0, 3, formula("B1*C1+B1"));
    assert_eq!(evaluated(&sheet, 0, 3), Ok(28.0));
}

#[test]
fn a_deep_chain_is_no_cycle() {
    let mut sheet = Sheet::new();
    sheet.set_cell(0, 0, num(1.0));
    for row in 1..100usize {
        sheet.set_cell(row, 0, formula(&format!("A{}+1", row)));
    }
    assert_eq!(evaluated(&sheet, 99, 0), Ok(100.0));
}

#[test]
fn empty_as_zero() {
    let mut sheet = Sheet::new();
    sheet.set_cell(0, 1, formula("A1+1"));
    assert_eq!(evaluated(&sheet, 0, 1), Ok(1.0));
}

#[test]
fn an_absent_cell_is_zero() {
    let sheet = Sheet::new();
    assert_eq!(sheet.evaluate(5, 5), Ok(Term::Bits(0)));
    assert_eq!(evaluated(&sheet, 5, 5), Ok(0.0));
}

#[test]
fn an_empty_cell_is_zero() {
    let mut sheet = Sheet::new();
    sheet.set_cell(0, 0, CellValue::Empty);
    sheet.set_cell(0, 1, formula("A1+1"));
    assert_eq!(sheet.evaluate(0, 0), Ok(Term::Bits(0)));
    assert_eq!(evaluated(&sheet, 0, 1), Ok(1.0));
}

#[test]
fn empty_and_absent_read_alike() {
    let mut absent = Sheet::new();
    absent.set_cell(1, 1, formula("A1*2+B1"));
    let mut empty = Sheet::new();
    empty.set_cell(1, 1, formula("A1*2+B1"));
    empty.set_cell(0, 0, CellValue::Empty);
    for row in 0..3 {
        for col in 0..3 {
            assert_eq!(absent.evaluate(row, col), empty.evaluate(row, col));
            assert_eq!(absent.display(row, col), empty.display(row, col));
        }
    }
}

#[test]
fn parse_failure() {
    let mut sheet = Sheet::new();
    sheet.set_cell(0, 0, formula("1+*2"));
    assert_eq!(sheet.evaluate(0, 0), Err(EvalError::ParseError(2, Fault::ExpectedOperand)));
}

#[test]
fn a_number_is_its_value() {
    let mut sheet = Sheet::new();
    sheet.set_cell(0, 0, num(-12.75));
    assert_eq!(sheet.evaluate(0, 0), Ok(Term::Bits((-12.75f64).to_bits())));
    assert_eq!(evaluated(&sheet, 0, 0), Ok(-12.75));
}

#[test]
fn a_text_that_is_a_number_counts_as_that_number() {
    let mut sheet = Sheet::new();
    sheet.set_cell(0, 0, CellValue::Text("2.5".to_string()));
    sheet.set_cell(1, 0, CellValue::Text("-3".to_string()));
    sheet.set_cell(2, 0, CellValue::Text("0010".to_string()));
    sheet.set_cell(3, 0, formula("A1*A2+A3"));
    assert_eq!(sheet.evaluate(0, 0), Ok(Term::Decimal(b"2.5".to_vec())));
    assert_eq!(evaluated(&sheet, 0, 0), Ok(2.5));
    assert_eq!(evaluated(&sheet, 1, 0), Ok(-3.0));
    assert_eq!(evaluated(&sheet, 2, 0), Ok(10.0));
    assert_eq!(evaluated(&sheet, 3, 0), Ok(2.5));
}

#[test]
fn a_text_that_is_no_number_is_a_type_mismatch() {
    let texts = [
        "", "hello", " 1", "1 ", "+1", "--1", "-", "1.", ".5", "1e5", "1,5", "0x10", "A1", "=1",
        "1.2.3", "1-", "١",
    ];
    for text in texts {
        let mut sheet = Sheet::new();
        sheet.set_cell(0, 0, CellValue::Text(text.to_string()));
        assert_eq!(sheet.evaluate(0, 0), Err(EvalError::TypeMismatch));
    }
}

#[test]
fn a_mismatch_in_a_referenced_cell_fails_the_formula() {
    let mut sheet = Sheet::new();
    sheet.set_cell(0, 0, CellValue::Text("hello".to_string()));
    sheet.set_cell(0, 1, formula("1+A1"));
    assert_eq!(sheet.evaluate(0, 1), Err(EvalError::TypeMismatch));
}

#[test]
fn a_reference_beyond_the_grid_fails_the_formula() {
    let mut sheet = Sheet::new();
    sheet.set_cell(0, 0, formula("A99999999999999999999999999999999999999999 + 1"));
    assert_eq!(sheet.evaluate(0, 0), Err(EvalError::ReferenceOutOfDomain));
}

#[test]
fn a_failure_in_a_referenced_formula_is_passed_on() {
    let mut sheet = Sheet::new();
    sheet.set_cell(0, 0, formula("(1"));
    sheet.set_cell(0, 1, formula("A1*2"));
    assert_eq!(sheet.evaluate(0, 1), Err(EvalError::ParseError(2, Fault::ExpectedCloseParen)));
}

#[test]
fn the_left_operand_fails_first() {
    let mut sheet = Sheet::new();
    sheet.set_cell(0, 0, CellValue::Text("x".to_string()));
    sheet.set_cell(0, 1, formula("1+"));
    sheet.set_cell(0, 2, formula("A1+B1"));
    sheet.set_cell(0, 3, formula("B1+A1"));
    assert_eq!(sheet.evaluate(0, 2), Err(EvalError::TypeMismatch));
    assert_eq!(sheet.evaluate(0, 3), Err(EvalError::ParseError(2, Fault::UnexpectedEnd)));
}

#[test]
fn a_formula_is_read_whole_before_its_references_are_followed() {
    let mut sheet = Sheet::new();
    sheet.set_cell(0, 0, CellValue::Text("x".to_string()));
    sheet.set_cell(0, 1, formula("A1+*"));
    assert_eq!(sheet.evaluate(0, 1), Err(EvalError::ParseError(3, Fault::ExpectedOperand)));
}

#[test]
fn the_four_operators_compute() {
    let mut sheet = Sheet::new();
    sheet.set_cell(0, 0, num(7.0));
    sheet.set_cell(1, 0, num(2.0));
    sheet.set_cell(0, 1, formula("A1+A2"));
    sheet.set_cell(1, 1, formula("A1-A2"));
    sheet.set_cell(2, 1, formula("A1*A2"));
    sheet.set_cell(3, 1, formula("A1/A2"));
    assert_eq!(evaluated(&sheet, 0, 1), Ok(9.0));
    assert_eq!(evaluated(&sheet, 1, 1), Ok(5.0));
    assert_eq!(evaluated(&sheet, 2, 1), Ok(14.0));
    assert_eq!(evaluated(&sheet, 3, 1), Ok(3.5));
}

#[test]
fn precedence_and_grouping_compute() {
    let mut sheet = Sheet::new();
    sheet.set_cell(0, 0, formula("1+2*3"));
    sheet.set_cell(0, 1, formula("(1+2)*3"));
    sheet.set_cell(0, 2, formula("10-4-3"));
    sheet.set_cell(0, 3, formula("10-(4-3)"));
    sheet.set_cell(0, 4, formula("8/4/2"));
    sheet.set_cell(0, 5, formula("1.5 * 4 - 0.25"));
    assert_eq!(evaluated(&sheet, 0, 0), Ok(7.0));
    assert_eq!(evaluated(&sheet, 0, 1), Ok(9.0));
    assert_eq!(evaluated(&sheet, 0, 2), Ok(3.0));
    assert_eq!(evaluated(&sheet, 0, 3), Ok(9.0));
    assert_eq!(evaluated(&sheet, 0, 4), Ok(1.0));
    assert_eq!(evaluated(&sheet, 0, 5), Ok(5.75));
}

#[test]
fn division_by_zero_is_no_error() {
    let mut sheet = Sheet::new();
    sheet.set_cell(0, 0, formula("1/0"));
    sheet.set_cell(0, 1, formula("0/0"));
    assert_eq!(evaluated(&sheet, 0, 0), Ok(f64::INFINITY));
    assert!(evaluated(&sheet, 0, 1).expect("a term").is_nan());
}

#[test]
fn a_mutation_is_seen_by_the_next_evaluation() {
    let mut sheet = Sheet::new();
    sheet.set_cell(0, 0, formula("B1"));
    sheet.set_cell(0, 1, formula("A1"));
    assert_eq!(sheet.evaluate(0, 0), Err(EvalError::CircularReference(0, 0)));
    sheet.set_cell(0, 1, num(4.0));
    assert_eq!(evaluated(&sheet, 0, 0), Ok(4.0));
    sheet.set_cell(0, 1, CellValue::Text("oops".to_string()));
    assert_eq!(sheet.evaluate(0, 0), Err(EvalError::TypeMismatch));
}

#[test]
fn references_reach_rows_and_columns_as_named() {
    let mut sheet = Sheet::new();
    sheet.set_cell(9, 26, num(5.0));
    sheet.set_cell(0, 0, formula("AA10"));
    sheet.set_cell(0, 1, formula("J27"));
    assert_eq!(evaluated(&sheet, 0, 0), Ok(5.0));
    assert_eq!(evaluated(&sheet, 0, 1), Ok(0.0));
}
