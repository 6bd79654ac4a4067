use spreadsheet::cell::CellValue;
use spreadsheet::error::{EvalError, Fault};
use spreadsheet::show::{error_marker, Shown};
use spreadsheet::term::Term;
use spreadsheet::formula::BinOp;
use spreadsheet::sheet::Sheet;

fn double(term: &Term) -> f64 {
    match term {
        Term::Bits(bits) => f64::from_bits(*bits),
        Term::Decimal(digits) => std::str::from_utf8(digits)
            .expect("a decimal is ASCII")
            .parse()
            .expect("a decimal is a number"),
        Term::Binary(op, left, right) => {
            let a = double(left);
            let b = double(right);
            match op {
                BinOp::Add => a + b,
                BinOp::Sub => a - b,
                BinOp::Mul => a * b,
                BinOp::Div => a / b,
            }
        }
    }
}

fn label(shown: Shown) -> String {
    match shown.text() {
        Some(text) => text,
        None => match shown {
            Shown::Number(term) => format!("{}", double(&term)),
            _ => unreachable!(),
        },
    }
}

#[test]
fn formula_round_trip_displays_the_number() {
    let mut sheet = Sheet::new();
    sheet.set_cell(0, 0, CellValue::Number(2.0f64.to_bits()));
    sheet.set_cell(0, 1, CellValue::Formula("A1*3".to_string()));
    assert_eq!(label(sheet.display(0, 1)), "6");
}

#[test]
fn never_written_displays_nothing() {
    let mut sheet = Sheet::new();
    assert_eq!(sheet.display(0, 0), Shown::Text(String::new()));
    assert_eq!(label(sheet.display(0, 0)), "");
    sheet.set_cell(3, 3, CellValue::Text("x".to_string()));
    assert_eq!(label(sheet.display(3, 4)), "");
    assert_eq!(label(sheet.display(usize::MAX, usize::MAX)), "");
}

#[test]
fn an_empty_cell_displays_nothing() {
    let mut sheet = Sheet::new();
    sheet.set_cell(0, 0, CellValue::Empty);
    assert_eq!(sheet.display(0, 0), Shown::Text(String::new()));
}

#[test]
fn parse_failure_displays_the_error_marker() {
    let mut sheet = Sheet::new();
    sheet.set_cell(0, 0, CellValue::Formula("1+*2".to_string()));
    assert_eq!(
        sheet.display(0, 0),
        Shown::Error(EvalError::ParseError(2, Fault::ExpectedOperand))
    );
    assert_eq!(label(sheet.display(0, 0)), "#ERR");
}

#[test]
fn every_failure_displays_the_error_marker() {
    let mut sheet = Sheet::new();
    sheet.set_cell(0, 0, CellValue::Formula("A1".to_string()));
    sheet.set_cell(1, 0, CellValue::Text("x".to_string()));
    sheet.set_cell(1, 1, CellValue::Formula("A2".to_string()));
    sheet.set_cell(2, 0, CellValue::Formula("ZZZZZZZZZZZZZZZZZZZZZZZZ1".to_string()));
    assert_eq!(sheet.display(0, 0), Shown::Error(EvalError::CircularReference(0, 0)));
    assert_eq!(sheet.display(1, 1), Shown::Error(EvalError::TypeMismatch));
    assert_eq!(sheet.display(2, 0), Shown::Error(EvalError::ReferenceOutOfDomain));
    assert_eq!(label(sheet.display(0, 0)), "#ERR");
    assert_eq!(label(sheet.display(1, 1)), "#ERR");
    assert_eq!(label(sheet.display(2, 0)), "#ERR");
}

#[test]
fn the_error_marker_is_fixed() {
    assert_eq!(error_marker(), "#ERR");
    assert_eq!(Shown::Error(EvalError::TypeMismatch).text(), Some("#ERR".to_string()));
}

#[test]
fn a_text_displays_as_it_stands() {
    let mut sheet = Sheet::new();
    sheet.set_cell(0, 0, CellValue::Text("hello, wörld".to_string()));
    sheet.set_cell(0, 1, CellValue::Text("12".to_string()));
    sheet.set_cell(0, 2, CellValue::Text("=A1".to_string()));
    assert_eq!(sheet.display(0, 0), Shown::Text("hello, wörld".to_string()));
    assert_eq!(sheet.display(0, 1), Shown::Text("12".to_string()));
    assert_eq!(sheet.display(0, 2), Shown::Text("=A1".to_string()));
}

#[test]
fn a_text_that_is_no_number_is_no_error_to_display() {
    let mut sheet = Sheet::new();
    sheet.set_cell(0, 0, CellValue::Text("hello".to_string()));
    assert_eq!(sheet.evaluate(0, 0), Err(EvalError::TypeMismatch));
    assert_eq!(label(sheet.display(0, 0)), "hello");
}

#[test]
fn a_number_displays_in_canonical_notation() {
    let mut sheet = Sheet::new();
    sheet.set_cell(0, 0, CellValue::Number(2.5f64.to_bits()));
    sheet.set_cell(0, 1, CellValue::Number(6.0f64.to_bits()));
    sheet.set_cell(0, 2, CellValue::Number((-0.125f64).to_bits()));
    assert_eq!(sheet.display(0, 0), Shown::Number(Term::Bits(2.5f64.to_bits())));
    assert_eq!(sheet.display(0, 0).text(), None);
    assert_eq!(label(sheet.display(0, 0)), "2.5");
    assert_eq!(label(sheet.display(0, 1)), "6");
    assert_eq!(label(sheet.display(0, 2)), "-0.125");
}

#[test]
fn a_formula_displays_what_it_computes() {
    let mut sheet = Sheet::new();
    sheet.set_cell(0, 0, CellValue::Text("1.5".to_string()));
    sheet.set_cell(0, 1, CellValue::Formula("(A1 + C1) / 4".to_string()));
    assert_eq!(label(sheet.display(0, 1)), "0.375");
    sheet.set_cell(0, 2, CellValue::Number(0.5f64.to_bits()));
    assert_eq!(label(sheet.display(0, 1)), "0.5");
}

#[test]
fn editing_offers_the_text_of_the_cell() {
    let mut sheet = Sheet::new();
    sheet.set_cell(0, 0, CellValue::Text("hello".to_string()));
    sheet.set_cell(0, 1, CellValue::Formula("A1*3".to_string()));
    sheet.set_cell(0, 2, CellValue::Number(2.5f64.to_bits()));
    sheet.set_cell(0, 3, CellValue::Empty);
    assert_eq!(sheet.input_text(0, 0), Shown::Text("hello".to_string()));
    assert_eq!(sheet.input_text(0, 1), Shown::Text("A1*3".to_string()));
    assert_eq!(sheet.input_text(0, 2), Shown::Number(Term::Bits(2.5f64.to_bits())));
    assert_eq!(label(sheet.input_text(0, 2)), "2.5");
    assert_eq!(sheet.input_text(0, 3), Shown::Text(String::new()));
    assert_eq!(sheet.input_text(0, 4), Shown::Text(String::new()));
}

#[test]
fn editing_a_formula_offers_its_source_without_the_equals_sign() {
    let mut sheet = Sheet::new();
    sheet.set_cell(0, 0, CellValue::Formula("1+*2".to_string()));
    sheet.set_cell(0, 1, CellValue::Formula(String::new()));
    sheet.set_cell(0, 2, CellValue::Formula("=A1".to_string()));
    assert_eq!(sheet.input_text(0, 0), Shown::Text("1+*2".to_string()));
    assert_eq!(sheet.input_text(0, 1), Shown::Text(String::new()));
    assert_eq!(sheet.input_text(0, 2), Shown::Text("=A1".to_string()));
}

#[test]
fn editing_a_text_offers_it_as_it_stands() {
    let mut sheet = Sheet::new();
    sheet.set_cell(0, 0, CellValue::Text("=A1".to_string()));
    sheet.set_cell(0, 1, CellValue::Text("12".to_string()));
    assert_eq!(sheet.input_text(0, 0), Shown::Text("=A1".to_string()));
    assert_eq!(sheet.input_text(0, 1), Shown::Text("12".to_string()));
}

#[test]
fn typing_what_a_text_cell_offers_gives_the_value_back() {
    let values = [
        CellValue::Text("hello".to_string()),
        CellValue::Text(String::new()),
        CellValue::Text("é".to_string()),
        CellValue::Text("1=2".to_string()),
    ];
    for value in values {
        let mut sheet = Sheet::new();
        sheet.set_cell(0, 0, value.clone());
        let offered = sheet.input_text(0, 0).text().expect("a text");
        assert_eq!(CellValue::from_input(&offered), value);
    }
}

#[test]
fn typing_what_a_formula_cell_offers_gives_a_text() {
    let mut sheet = Sheet::new();
    sheet.set_cell(0, 0, CellValue::from_input("=A1*3"));
    assert_eq!(
        sheet.get_cell(0, 0).map(|cell| cell.value.clone()),
        Some(CellValue::Formula("A1*3".to_string()))
    );
    let offered = sheet.input_text(0, 0).text().expect("a text");
    assert_eq!(offered, "A1*3");
    assert_eq!(CellValue::from_input(&offered), CellValue::Text("A1*3".to_string()));
}
