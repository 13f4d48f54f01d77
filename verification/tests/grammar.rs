use spectra_reader::grammar::check_float_literal;

#[test]
fn accepts_plain_numbers() {
    for s in ["0", "7", "42", "1550.0", "0.1", ".5", "5.", "007"] {
        assert!(check_float_literal(s), "expected {s:?} to be accepted");
    }
}

#[test]
fn accepts_signs_and_exponents() {
    for s in ["-2.0", "+3.01", "-0", "1e5", "1E5", "1.55e-3", "2e+10", "-1.5E+2", ".5e1", "-.5"] {
        assert!(check_float_literal(s), "expected {s:?} to be accepted");
    }
}

#[test]
fn rejects_non_numbers() {
    for s in [
        "", "+", "-", ".", "+.", "abc", "1.2.3", "--1", "+-1", "1e", "1e+", "1e1.5", "1.0e2e3",
        " 1.0", "1.0 ", "1,0", "e5", ".e5", "NaN", "inf", "0x10",
    ] {
        assert!(!check_float_literal(s), "expected {s:?} to be rejected");
    }
}
