use lib::numbers::is_float_text;

#[test]
fn decimal_numbers() {
    for text in ["0", "12", "1.5", "1.", ".5", "007.250", "+3", "-0.0"] {
        assert!(is_float_text(text), "{text:?}");
    }
}

#[test]
fn exponents_and_special_values() {
    for text in ["1e5", "1E+5", "2.5e-3", ".5E10", "inf", "-Infinity", "NaN", "+nan", "INF"] {
        assert!(is_float_text(text), "{text:?}");
    }
}

#[test]
fn texts_that_are_no_number() {
    for text in ["", "+", "-", ".", "1.2.3", "1..", "e5", "1e", "1e+", "12a", " 1", "1 ", "infinit", "nana", "0x10", "1_000"] {
        assert!(!is_float_text(text), "{text:?}");
    }
}
