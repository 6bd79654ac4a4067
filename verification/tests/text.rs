use spreadsheet::text::check_decimal;

#[test]
fn decimal_notation_is_recognised() {
    for text in ["0", "7", "12", "0012", "1.5", "0.125", "10.0", "-1", "-0.5", "-007.250"] {
        assert!(check_decimal(text.as_bytes()), "{:?} is a decimal", text);
    }
}

#[test]
fn what_is_no_decimal_notation_is_rejected() {
    for text in [
        "", "-", ".", "1.", ".5", "-.5", "1..2", "1.2.3", "+1", "--1", "1-", " 1", "1 ", "1e5",
        "1,5", "0x10", "inf", "NaN", "a", "1a", "１",
    ] {
        assert!(!check_decimal(text.as_bytes()), "{:?} is no decimal", text);
    }
}

#[test]
fn every_recognised_decimal_is_a_number() {
    for text in ["0", "0012", "1.5", "-007.250", "123456789012345678901234567890.5"] {
        assert!(check_decimal(text.as_bytes()));
        assert!(text.parse::<f64>().is_ok());
    }
}
